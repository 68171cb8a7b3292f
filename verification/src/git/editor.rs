//! The one-shot `GIT_EDITOR` script that hands git a prepared commit
//! message. Creating the files, and removing them when done, is left to the
//! application.
use vstd::prelude::*;

use crate::text::{chars_of, push_str, string_of};

verus! {

/// `#!/bin/sh`, then `cp "<message file>" "$1"`: the script copies the
/// prepared message over the file git asks to be edited. Both paths are
/// double-quoted.
pub open spec fn editor_script(msg_path: Seq<char>) -> Seq<char> {
    "#!/bin/sh\ncp \""@ + msg_path + "\" \"$1\"\n"@
}

/// The editor script for a message file.
pub fn editor_script_body(msg_path: &str) -> (r: String)
    ensures
        r@ == editor_script(msg_path@),
{
    let mut v = chars_of("#!/bin/sh\ncp \"");
    push_str(&mut v, msg_path);
    push_str(&mut v, "\" \"$1\"\n");
    string_of(&v)
}

} // verus!
