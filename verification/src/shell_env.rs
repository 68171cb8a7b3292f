//! The `PATH` that child processes get.
//!
//! On macOS, applications started from the Finder inherit a minimal `PATH`;
//! `/usr/libexec/path_helper -s` prints the full system one, as
//! `PATH="<paths>"; export PATH;`. Running it is left to the application;
//! reading its output is done here.
use vstd::prelude::*;

use crate::git::command_runner::{stdout_string, stdout_text, CommandOutput};
use crate::text::{chars_of, find_char, first_index, slice_of, string_of};

verus! {

/// The text between the first two `"` of `stdout`, if it has two.
pub open spec fn quoted_path(stdout: Seq<char>) -> Option<Seq<char>> {
    match first_index(stdout, '"') {
        None => None,
        Some(i) => match first_index(stdout.skip(i + 1), '"') {
            None => None,
            Some(j) => Some(stdout.subrange(i + 1, i + 1 + j)),
        },
    }
}

/// The `PATH` value in `path_helper`'s output: the text between its first two
/// double quotes; `None` when there are fewer than two.
pub fn parse_path_helper_output(stdout: &str) -> (r: Option<String>)
    ensures
        match r {
            Some(p) => quoted_path(stdout@) == Some(p@),
            None => quoted_path(stdout@) is None,
        },
{
    let cs = chars_of(stdout);
    let n = cs.len();
    proof {
        crate::text::lemma_first_index(cs@, '"');
    }
    let start = match find_char(&cs, '"') {
        Some(i) => {
            assert(i < n);
            i + 1
        },
        None => return None,
    };
    let rest = slice_of(&cs, start, cs.len());
    assert(rest@ =~= cs@.skip(start as int));
    proof {
        crate::text::lemma_first_index(rest@, '"');
    }
    let len = match find_char(&rest, '"') {
        Some(j) => j,
        None => return None,
    };
    let p = slice_of(&cs, start, start + len);
    Some(string_of(&p))
}


/// The `PATH` child processes get: the one `path_helper` printed when it ran
/// and succeeded and its output holds one, else the inherited `PATH` (empty
/// when there is none).
pub open spec fn system_path_of(helper: Option<CommandOutput>, inherited: Option<Seq<char>>) -> Seq<char> {
    let fallback = match inherited {
        Some(p) => p,
        None => Seq::empty(),
    };
    match helper {
        Some(o) => if o.success {
            match quoted_path(stdout_text(o)) {
                Some(p) => p,
                None => fallback,
            }
        } else {
            fallback
        },
        None => fallback,
    }
}

/// Chooses the `PATH` for child processes from the output of
/// `path_helper -s` (where it was run) and the inherited `PATH`.
pub fn resolve(helper: &Option<CommandOutput>, inherited: Option<String>) -> (r: String)
    ensures
        r@ == system_path_of(*helper, match inherited {
            Some(p) => Some(p@),
            None => None,
        }),
{
    let fallback = match inherited {
        Some(p) => p,
        None => String::new(),
    };
    match helper {
        Some(o) => {
            if o.success {
                match parse_path_helper_output(stdout_string(o).as_str()) {
                    Some(p) => p,
                    None => fallback,
                }
            } else {
                fallback
            }
        },
        None => fallback,
    }
}

} // verus!
