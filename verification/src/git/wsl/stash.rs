//! Stashes made through git: the command lines, and what their output means.
use vstd::prelude::*;

use crate::error::TrunkError;
use crate::git::command_runner::{
    arg_views, push_arg, stderr_string, stderr_text, stdout_string, stdout_text, CommandOutput,
};
use crate::text::{chars_of, decimal, is_blank, push_decimal, push_str, string_of, trim, trim_chars};

verus! {

/// The message of a failed command: its trimmed error output, or its trimmed
/// standard output when that is empty.
pub open spec fn command_message(o: CommandOutput) -> Seq<char> {
    if trim(stderr_text(o)).len() == 0 {
        trim(stdout_text(o))
    } else {
        trim(stderr_text(o))
    }
}

/// The error a failed command reports under `code`.
pub fn git_command_error(code: &str, output: &CommandOutput) -> (e: TrunkError)
    ensures
        e.code@ == code@,
        e.message@ == command_message(*output),
{
    let err = trim_chars(&chars_of(stderr_string(output).as_str()));
    if err.len() == 0 {
        let out = trim_chars(&chars_of(stdout_string(output).as_str()));
        TrunkError::from_chars(code, &out)
    } else {
        TrunkError::from_chars(code, &err)
    }
}

/// The outcome of a stash command: nothing when it succeeded, else a
/// `git_error`.
pub fn run_git(output: &CommandOutput) -> (r: Result<(), TrunkError>)
    ensures
        r is Ok <==> output.success,
        r matches Err(e) ==> e.code@ == "git_error"@ && e.message@ == command_message(*output),
{
    if output.success {
        Ok(())
    } else {
        Err(git_command_error("git_error", output))
    }
}

/// Whether `ls-files -u` listed any unmerged path.
pub fn wsl_has_conflicts(output: &CommandOutput) -> (r: Result<bool, TrunkError>)
    ensures
        r is Ok <==> output.success,
        r matches Ok(b) ==> b == (trim(stdout_text(*output)).len() > 0),
        r matches Err(e) ==> e.code@ == "git_error"@ && e.message@ == command_message(*output),
{
    if output.success {
        Ok(!is_blank(&chars_of(stdout_string(output).as_str())))
    } else {
        Err(git_command_error("git_error", output))
    }
}

/// The command that stashes the working tree, given what
/// `status --porcelain=v1` printed: refused when the tree is clean; with the
/// message when it is not blank.
pub fn wsl_stash_save(status: &CommandOutput, message: &str) -> (r: Result<Vec<String>, TrunkError>)
    ensures
        !status.success ==> (r matches Err(e) && e.code@ == "git_error"@ && e.message@
            == command_message(*status)),
        status.success && trim(stdout_text(*status)).len() == 0 ==> (r matches Err(e) && e.code@
            == "nothing_to_stash"@ && e.message@ == "Nothing to stash — working tree is clean"@),
        status.success && trim(stdout_text(*status)).len() > 0 ==> (r matches Ok(a) && arg_views(
            a@,
        ) == if trim(message@).len() == 0 {
            seq!["stash"@, "push"@]
        } else {
            seq!["stash"@, "push"@, "-m"@, message@]
        }),
{
    if !status.success {
        return Err(git_command_error("git_error", status));
    }
    if is_blank(&chars_of(stdout_string(status).as_str())) {
        return Err(TrunkError::new("nothing_to_stash", "Nothing to stash — working tree is clean"));
    }
    let mut a: Vec<String> = Vec::new();
    push_arg(&mut a, "stash");
    push_arg(&mut a, "push");
    if !is_blank(&chars_of(message)) {
        push_arg(&mut a, "-m");
        push_arg(&mut a, message);
    }
    assert(arg_views(a@) =~= if trim(message@).len() == 0 {
        seq!["stash"@, "push"@]
    } else {
        seq!["stash"@, "push"@, "-m"@, message@]
    });
    Ok(a)
}

/// `stash@{<index>}`.
pub open spec fn stash_ref_text(index: usize) -> Seq<char> {
    "stash@{"@ + decimal(index as nat) + "}"@
}

/// The name of the stash entry at `index`.
pub fn stash_ref(index: usize) -> (r: String)
    ensures
        r@ == stash_ref_text(index),
{
    let mut v: Vec<char> = Vec::new();
    push_str(&mut v, "stash@{");
    push_decimal(&mut v, index as u64);
    push_str(&mut v, "}");
    string_of(&v)
}

/// Whether the conflict check found unmerged paths; a check that could not
/// run counts as an error.
pub open spec fn conflicts_found(c: Result<CommandOutput, TrunkError>) -> Option<bool> {
    match c {
        Ok(o) => if o.success {
            Some(trim(stdout_text(o)).len() > 0)
        } else {
            None
        },
        Err(_) => None,
    }
}

fn check_conflicts(c: &Result<CommandOutput, TrunkError>) -> (r: Result<bool, TrunkError>)
    ensures
        match conflicts_found(*c) {
            Some(b) => r == Ok::<bool, TrunkError>(b),
            None => r is Err,
        },
{
    match c {
        Ok(o) => wsl_has_conflicts(o),
        Err(e) => Err(e.clone()),
    }
}

/// The outcome of applying a stash entry, given the output of the apply and of
/// the conflict check (`ls-files -u`) run after it: a failed apply is reported
/// as a conflict when conflicts are found, else as itself; a successful apply
/// that left conflicts is reported as a conflict.
pub open spec fn stash_outcome(run: CommandOutput, conflicts: Result<CommandOutput, TrunkError>) -> Option<bool> {
    if !run.success {
        Some(conflicts_found(conflicts) == Some(true))
    } else {
        conflicts_found(conflicts)
    }
}

fn stash_result(run: &CommandOutput, conflicts: &Result<CommandOutput, TrunkError>, conflict_message: &str) -> (r: Result<(), TrunkError>)
    ensures
        !run.success && conflicts_found(*conflicts) == Some(true) ==> (r matches Err(e) && e.code@
            == "conflict_state"@ && e.message@ == conflict_message@),
        !run.success && conflicts_found(*conflicts) != Some(true) ==> (r matches Err(e) && e.code@
            == "git_error"@ && e.message@ == command_message(*run)),
        run.success && conflicts_found(*conflicts) == Some(true) ==> (r matches Err(e) && e.code@
            == "conflict_state"@ && e.message@ == conflict_message@),
        run.success && conflicts_found(*conflicts) == Some(false) ==> r is Ok,
        run.success && conflicts_found(*conflicts) is None ==> r is Err,
{
    match run_git(run) {
        Err(e) => {
            let found = match check_conflicts(conflicts) {
                Ok(b) => b,
                Err(_) => false,
            };
            if found {
                Err(TrunkError::new("conflict_state", conflict_message))
            } else {
                Err(e)
            }
        },
        Ok(()) => match check_conflicts(conflicts) {
            Err(e) => Err(e),
            Ok(true) => Err(TrunkError::new("conflict_state", conflict_message)),
            Ok(false) => Ok(()),
        },
    }
}

/// The outcome of `stash apply`, given its output and the conflict check run
/// after it.
pub fn wsl_stash_apply(run: &CommandOutput, conflicts: &Result<CommandOutput, TrunkError>) -> (r: Result<(), TrunkError>)
    ensures
        conflicts_found(*conflicts) == Some(true) ==> (r matches Err(e) && e.code@ == "conflict_state"@
            && e.message@ == "Stash applied with conflicts — resolve conflicts before continuing"@),
        !run.success && conflicts_found(*conflicts) != Some(true) ==> (r matches Err(e) && e.code@
            == "git_error"@ && e.message@ == command_message(*run)),
        run.success && conflicts_found(*conflicts) == Some(false) ==> r is Ok,
        run.success && conflicts_found(*conflicts) is None ==> r is Err,
{
    stash_result(run, conflicts, "Stash applied with conflicts — resolve conflicts before continuing")
}

/// The outcome of `stash pop`, given its output and the conflict check run
/// after it.
pub fn wsl_stash_pop(run: &CommandOutput, conflicts: &Result<CommandOutput, TrunkError>) -> (r: Result<(), TrunkError>)
    ensures
        conflicts_found(*conflicts) == Some(true) ==> (r matches Err(e) && e.code@ == "conflict_state"@
            && e.message@
            == "Stash applied with conflicts — resolve conflicts before continuing. Note: stash was NOT removed."@),
        !run.success && conflicts_found(*conflicts) != Some(true) ==> (r matches Err(e) && e.code@
            == "git_error"@ && e.message@ == command_message(*run)),
        run.success && conflicts_found(*conflicts) == Some(false) ==> r is Ok,
        run.success && conflicts_found(*conflicts) is None ==> r is Err,
{
    stash_result(
        run,
        conflicts,
        "Stash applied with conflicts — resolve conflicts before continuing. Note: stash was NOT removed.",
    )
}

} // verus!
