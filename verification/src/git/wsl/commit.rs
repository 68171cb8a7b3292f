//! Commits made through git: the command lines, and what their output means.
use vstd::prelude::*;

use crate::error::TrunkError;
use crate::git::command_runner::{
    arg_views, failure_error, failure_message, push_arg, stdout_string, stdout_text, CommandOutput,
};
use crate::git::types::HeadCommitMessage;
use crate::text::{
    chars_of, is_blank, piece, splitn, splitn_of, string_of, trim, trim_chars, trim_end_char,
    trim_end_char_of,
};

verus! {

/// The outcome of a commit command: nothing when it succeeded, else `code`
/// with git's trimmed error output.
pub fn git_write(output: &CommandOutput, code: &str) -> (r: Result<(), TrunkError>)
    ensures
        r is Ok <==> output.success,
        r matches Err(e) ==> e.code@ == code@ && e.message@ == failure_message(
            *output,
            "Git commit operation failed"@,
        ),
{
    if output.success {
        Ok(())
    } else {
        Err(failure_error(output, code, "Git commit operation failed"))
    }
}

/// `-m <body>` when the body is given and not blank.
pub open spec fn body_args(body: Option<Seq<char>>) -> Seq<Seq<char>> {
    match body {
        Some(b) => if trim(b).len() > 0 {
            seq!["-m"@, b]
        } else {
            Seq::empty()
        },
        None => Seq::empty(),
    }
}

pub open spec fn opt_view(body: Option<&str>) -> Option<Seq<char>> {
    match body {
        Some(b) => Some(b@),
        None => None,
    }
}

fn push_body(a: &mut Vec<String>, body: Option<&str>)
    ensures
        arg_views(final(a)@) == arg_views(old(a)@) + body_args(opt_view(body)),
{
    match body {
        Some(b) => {
            if !is_blank(&chars_of(b)) {
                push_arg(a, "-m");
                push_arg(a, b);
                assert(arg_views(a@) =~= arg_views(old(a)@) + body_args(opt_view(body)));
            } else {
                assert(arg_views(a@) =~= arg_views(old(a)@) + body_args(opt_view(body)));
            }
        },
        None => {
            assert(arg_views(a@) =~= arg_views(old(a)@) + body_args(opt_view(body)));
        },
    }
}

/// The command that commits the index with a subject and, when not blank, a
/// body.
pub fn wsl_create_commit_inner(subject: &str, body: Option<&str>) -> (r: Vec<String>)
    ensures
        arg_views(r@) == seq!["commit"@, "-m"@, subject@] + body_args(opt_view(body)),
{
    let mut a: Vec<String> = Vec::new();
    push_arg(&mut a, "commit");
    push_arg(&mut a, "-m");
    push_arg(&mut a, subject);
    push_body(&mut a, body);
    a
}

/// The command that rewrites the last commit with a subject and, when not
/// blank, a body.
pub fn wsl_amend_commit_inner(subject: &str, body: Option<&str>) -> (r: Vec<String>)
    ensures
        arg_views(r@) == seq!["commit"@, "--amend"@, "-m"@, subject@] + body_args(opt_view(body)),
{
    let mut a: Vec<String> = Vec::new();
    push_arg(&mut a, "commit");
    push_arg(&mut a, "--amend");
    push_arg(&mut a, "-m");
    push_arg(&mut a, subject);
    push_body(&mut a, body);
    a
}

/// Subject and body of `log -1 --format=%s%x00%b` output: trailing newlines
/// dropped, split at the first NUL; the body trimmed, and absent when blank.
pub open spec fn head_message(text: Seq<char>) -> (Seq<char>, Option<Seq<char>>) {
    let parts = splitn(trim_end_char(text, '\n'), '\0', 2);
    (piece(parts, 0), if parts.len() >= 2 && trim(parts[1]).len() > 0 {
        Some(trim(parts[1]))
    } else {
        None
    })
}

/// The message of the commit `HEAD` points at, from what
/// `log -1 --format=%s%x00%b` left behind.
pub fn wsl_get_head_commit_message_inner(output: &CommandOutput) -> (r: Result<HeadCommitMessage, TrunkError>)
    ensures
        r is Ok <==> output.success,
        r matches Ok(m) ==> m.subject@ == head_message(stdout_text(*output)).0 && match (
            m.body,
            head_message(stdout_text(*output)).1,
        ) {
            (Some(b), Some(v)) => b@ == v,
            (None, None) => true,
            _ => false,
        },
        r matches Err(e) ==> e.code@ == "commit_message_error"@ && e.message@ == failure_message(
            *output,
            "Could not read HEAD commit message"@,
        ),
{
    if !output.success {
        return Err(failure_error(output, "commit_message_error", "Could not read HEAD commit message"));
    }
    let text = stdout_string(output);
    let t = trim_end_char_of(&chars_of(text.as_str()), '\n');
    let parts = splitn_of(&t, '\0', 2);
    let subject = if parts.len() >= 1 {
        string_of(&parts[0])
    } else {
        String::new()
    };
    let body = if parts.len() >= 2 {
        let b = trim_chars(&parts[1]);
        if b.len() > 0 {
            Some(string_of(&b))
        } else {
            None
        }
    } else {
        None
    };
    Ok(HeadCommitMessage { subject, body })
}

} // verus!
