//! Files of a WSL repository, read and written through `wsl.exe sh -lc`: the
//! shell scripts, with every path single-quoted, and what their output means.
//! Running them is left to the application.
use vstd::prelude::*;

use crate::error::TrunkError;
use crate::git::command_runner::{arg_views, failure_error, failure_message, push_arg, CommandOutput};
use crate::git::types::{RepoDescriptor, RepoLocator};
use crate::text::{chars_of, push_str, string_of};

verus! {

/// The characters of `s` with each `'` written as `'\''`.
pub open spec fn quote_body(s: Seq<char>) -> Seq<char>
    decreases s.len(),
{
    if s.len() == 0 {
        Seq::empty()
    } else {
        quote_body(s.drop_last()) + if s.last() == '\'' {
            seq!['\'', '\\', '\'', '\'']
        } else {
            seq![s.last()]
        }
    }
}

/// `s` as one single-quoted shell word.
pub open spec fn single_quoted(s: Seq<char>) -> Seq<char> {
    seq!['\''] + quote_body(s) + seq!['\'']
}

/// Quotes `s` for a POSIX shell: wrapped in `'`, each `'` inside closed,
/// escaped and reopened, so the shell reads it back as exactly `s`.
pub fn shell_single_quote(s: &str) -> (r: String)
    ensures
        r@ == single_quoted(s@),
{
    let cs = chars_of(s);
    let mut out: Vec<char> = Vec::new();
    out.push('\'');
    for i in 0..cs.len()
        invariant
            cs@ == s@,
            out@ == seq!['\''] + quote_body(cs@.subrange(0, i as int)),
    {
        let ghost t = cs@.subrange(0, i + 1);
        assert(t.drop_last() =~= cs@.subrange(0, i as int));
        if cs[i] == '\'' {
            out.push('\'');
            out.push('\\');
            out.push('\'');
            out.push('\'');
        } else {
            out.push(cs[i]);
        }
        assert(out@ =~= seq!['\''] + quote_body(t));
    }
    assert(cs@.subrange(0, cs@.len() as int) =~= cs@);
    out.push('\'');
    string_of(&out)
}

/// Characters a POSIX shell treats specially outside quotes.
pub open spec fn shell_special(c: char) -> bool {
    c == ' ' || c == '\t' || c == '\n' || c == '|' || c == '&' || c == ';' || c == '<' || c == '>'
        || c == '(' || c == ')' || c == '$' || c == '`' || c == '"' || c == '*' || c == '?' || c
        == '[' || c == '#' || c == '~'
}

/// How a POSIX shell reads one word: inside single quotes every character
/// stands for itself up to the closing quote; outside them a backslash takes
/// the next character as it is, a single quote opens a quoted part, and any
/// other character stands for itself unless the shell treats it specially.
/// `None` when the text is not one plain word (an unclosed quote, a trailing
/// backslash, or a special character outside quotes).
pub open spec fn shell_read(w: Seq<char>, quoted: bool) -> Option<Seq<char>>
    decreases w.len(),
{
    if w.len() == 0 {
        if quoted {
            None
        } else {
            Some(Seq::empty())
        }
    } else if quoted {
        if w[0] == '\'' {
            shell_read(w.skip(1), false)
        } else {
            match shell_read(w.skip(1), true) {
                Some(r) => Some(seq![w[0]] + r),
                None => None,
            }
        }
    } else if w[0] == '\'' {
        shell_read(w.skip(1), true)
    } else if w[0] == '\\' {
        if w.len() >= 2 {
            match shell_read(w.skip(2), false) {
                Some(r) => Some(seq![w[1]] + r),
                None => None,
            }
        } else {
            None
        }
    } else if shell_special(w[0]) {
        None
    } else {
        match shell_read(w.skip(1), false) {
            Some(r) => Some(seq![w[0]] + r),
            None => None,
        }
    }
}

/// How one character is written inside a quoted word.
pub open spec fn quote_piece(c: char) -> Seq<char> {
    if c == '\'' {
        seq!['\'', '\\', '\'', '\'']
    } else {
        seq![c]
    }
}

proof fn lemma_quote_body_step(s: Seq<char>)
    requires
        s.len() > 0,
    ensures
        quote_body(s) == quote_body(s.drop_last()) + quote_piece(s.last()),
{
}

proof fn lemma_quote_body_front(c: char, t: Seq<char>)
    ensures
        quote_body(seq![c] + t) == quote_piece(c) + quote_body(t),
    decreases t.len(),
{
    let u = seq![c] + t;
    lemma_quote_body_step(u);
    if t.len() == 0 {
        assert(u.drop_last() =~= Seq::<char>::empty());
        assert(quote_body(u.drop_last()) =~= Seq::<char>::empty());
        assert(quote_body(t) =~= Seq::<char>::empty());
        assert(quote_body(u) =~= quote_piece(c) + quote_body(t));
    } else {
        lemma_quote_body_front(c, t.drop_last());
        lemma_quote_body_step(t);
        assert(u.drop_last() =~= seq![c] + t.drop_last());
        assert(u.last() == t.last());
        assert(quote_body(u) =~= quote_piece(c) + quote_body(t));
    }
}

proof fn lemma_read_quoted_body(s: Seq<char>)
    ensures
        shell_read(quote_body(s) + seq!['\''], true) == Some(s),
    decreases s.len(),
{
    if s.len() == 0 {
        assert(quote_body(s) =~= Seq::<char>::empty());
        let w = quote_body(s) + seq!['\''];
        assert(w =~= seq!['\'']);
        assert(w.skip(1) =~= Seq::<char>::empty());
        assert(shell_read(w.skip(1), false) == Some(Seq::<char>::empty()));
        assert(s =~= Seq::<char>::empty());
    } else {
        let c = s[0];
        let t = s.skip(1);
        assert(s =~= seq![c] + t);
        lemma_quote_body_front(c, t);
        lemma_read_quoted_body(t);
        let rest = quote_body(t) + seq!['\''];
        assert(quote_body(s) + seq!['\''] =~= quote_piece(c) + rest);
        if c == '\'' {
            let w = seq!['\'', '\\', '\'', '\''] + rest;
            let w1 = w.skip(1);
            let w3 = w1.skip(2);
            assert(w1 =~= seq!['\\', '\'', '\''] + rest);
            assert(w3 =~= seq!['\''] + rest);
            assert(w3.skip(1) =~= rest);
            assert(w3[0] == '\'');
            assert(shell_read(w3, false) == shell_read(rest, true));
            assert(w1[0] == '\\' && w1.len() >= 2 && w1[1] == '\'');
            assert(shell_read(w1, false) == Some(seq!['\''] + t));
            assert(w[0] == '\'');
            assert(shell_read(w, true) == shell_read(w1, false));
            assert(seq![c] + t =~= s);
        } else {
            let w = seq![c] + rest;
            assert(w.skip(1) =~= rest);
            assert(w[0] == c);
            assert(shell_read(w, true) == Some(seq![c] + t));
        }
    }
}

/// A path quoted for the shell is read back by the shell as exactly that
/// path: whatever it holds (spaces, quotes, `$`, `;`), it stays one word and
/// nothing in it is run.
pub proof fn lemma_single_quote_reads_back(s: Seq<char>)
    ensures
        shell_read(single_quoted(s), false) == Some(s),
{
    lemma_read_quoted_body(s);
    let w = single_quoted(s);
    assert(w.skip(1) =~= quote_body(s) + seq!['\'']);
}

/// The distribution and Linux path of a WSL repository.
pub fn descriptor_parts(repo: &RepoDescriptor) -> (r: Result<(String, String), TrunkError>)
    ensures
        match repo.locator {
            RepoLocator::Wsl { distro, linux_path } => r matches Ok((d, p)) && d@ == distro@ && p@
                == linux_path@,
            RepoLocator::Local { .. } => r matches Err(e) && e.code@ == "backend_descriptor_mismatch"@
                && e.message@ == "WSL filesystem helper received a non-WSL descriptor"@,
        },
{
    match &repo.locator {
        RepoLocator::Wsl { distro, linux_path } => Ok((distro.clone(), linux_path.clone())),
        RepoLocator::Local { .. } => Err(
            TrunkError::new(
                "backend_descriptor_mismatch",
                "WSL filesystem helper received a non-WSL descriptor",
            ),
        ),
    }
}

/// `wsl.exe -d <distro> --cd <cd> sh -lc <script>`, as arguments.
pub open spec fn sh_invocation(distro: Seq<char>, cd: Seq<char>, script: Seq<char>) -> Seq<Seq<char>> {
    seq!["-d"@, distro, "--cd"@, cd, "sh"@, "-lc"@, script]
}

/// The `wsl.exe` arguments that run `script` with `sh -lc` in directory `cd`
/// of a distribution.
pub fn wsl_sh_args(distro: &str, cd: &str, script: &str) -> (r: Vec<String>)
    ensures
        arg_views(r@) == sh_invocation(distro@, cd@, script@),
{
    let mut a: Vec<String> = Vec::new();
    push_arg(&mut a, "-d");
    push_arg(&mut a, distro);
    push_arg(&mut a, "--cd");
    push_arg(&mut a, cd);
    push_arg(&mut a, "sh");
    push_arg(&mut a, "-lc");
    push_arg(&mut a, script);
    assert(arg_views(a@) =~= seq!["-d"@, distro@, "--cd"@, cd@, "sh"@, "-lc"@, script@]);
    a
}

/// What a filesystem script printed, or `wsl_io_error` with its trimmed error
/// output when it failed.
pub fn wsl_output(output: &CommandOutput) -> (r: Result<Vec<u8>, TrunkError>)
    ensures
        r is Ok <==> output.success,
        r matches Ok(b) ==> b@ == output.stdout@,
        r matches Err(e) ==> e.code@ == "wsl_io_error"@ && e.message@ == failure_message(
            *output,
            "WSL filesystem command failed"@,
        ),
{
    if output.success {
        Ok(output.stdout.clone())
    } else {
        Err(failure_error(output, "wsl_io_error", "WSL filesystem command failed"))
    }
}

/// `cat -- <path>`.
pub fn read_file_script(path: &str) -> (r: String)
    ensures
        r@ == "cat -- "@ + single_quoted(path@),
{
    let mut v = chars_of("cat -- ");
    let q = shell_single_quote(path);
    push_str(&mut v, q.as_str());
    string_of(&v)
}

/// Creates the parent directory, then writes standard input to `<path>`.
pub fn write_file_script(path: &str) -> (r: String)
    ensures
        r@ == "mkdir -p -- \"$(dirname -- "@ + single_quoted(path@) + ")\" && cat > "@
            + single_quoted(path@),
{
    let q = shell_single_quote(path);
    let mut v = chars_of("mkdir -p -- \"$(dirname -- ");
    push_str(&mut v, q.as_str());
    push_str(&mut v, ")\" && cat > ");
    push_str(&mut v, q.as_str());
    string_of(&v)
}

/// `rm -f -- <path>`.
pub fn delete_file_script(path: &str) -> (r: String)
    ensures
        r@ == "rm -f -- "@ + single_quoted(path@),
{
    let mut v = chars_of("rm -f -- ");
    let q = shell_single_quote(path);
    push_str(&mut v, q.as_str());
    string_of(&v)
}

/// `mkdir -p -- <path>`.
pub fn make_dir_script(path: &str) -> (r: String)
    ensures
        r@ == "mkdir -p -- "@ + single_quoted(path@),
{
    let mut v = chars_of("mkdir -p -- ");
    let q = shell_single_quote(path);
    push_str(&mut v, q.as_str());
    string_of(&v)
}

/// The script whose output changes when the repository's status or `HEAD`
/// does.
pub const POLL_TOKEN_SCRIPT: &'static str = "git status --porcelain=v1 -uall && git rev-parse HEAD 2>/dev/null || true";

/// A temporary directory inside a distribution, and the repository whose
/// directory its scripts run in.
#[derive(Debug, Clone)]
pub struct WslTempDir {
    pub distro: String,
    pub repo_path: String,
    pub linux_path: String,
}

/// `<dir>/<child>`.
pub open spec fn child_path(dir: Seq<char>, child: Seq<char>) -> Seq<char> {
    dir + "/"@ + child
}

/// A `wsl.exe` invocation of a filesystem script: its arguments, and the
/// text fed to its standard input, if any.
#[derive(Debug, Clone)]
pub struct FsCommand {
    pub args: Vec<String>,
    pub stdin: Option<String>,
}

pub open spec fn stdin_view(c: FsCommand) -> Option<Seq<char>> {
    match c.stdin {
        Some(s) => Some(s@),
        None => None,
    }
}

fn fs_command(distro: &str, cd: &str, script: &str, stdin: Option<&str>) -> (r: FsCommand)
    ensures
        arg_views(r.args@) == sh_invocation(distro@, cd@, script@),
        stdin_view(r) == match stdin {
            Some(s) => Some(s@),
            None => None,
        },
{
    FsCommand {
        args: wsl_sh_args(distro, cd, script),
        stdin: match stdin {
            Some(s) => Some(String::from_str(s)),
            None => None,
        },
    }
}

/// Whether `c` runs `script` in the repository's directory of its
/// distribution, fed `stdin`.
pub open spec fn runs_in_repo(repo: RepoDescriptor, c: FsCommand, script: Seq<char>, stdin: Option<Seq<char>>) -> bool {
    match repo.locator {
        RepoLocator::Wsl { distro, linux_path } => arg_views(c.args@) == sh_invocation(
            distro@,
            linux_path@,
            script,
        ) && stdin_view(c) == stdin,
        RepoLocator::Local { .. } => false,
    }
}

/// Reads a file given relative to the repository.
pub fn read_repo_file(repo: &RepoDescriptor, relative_path: &str) -> (r: Result<FsCommand, TrunkError>)
    ensures
        repo.locator is Wsl <==> r is Ok,
        r matches Ok(c) ==> runs_in_repo(*repo, c, "cat -- "@ + single_quoted(relative_path@), None),
        r matches Err(e) ==> e.code@ == "backend_descriptor_mismatch"@,
{
    let (distro, linux_path) = match descriptor_parts(repo) {
        Ok(p) => p,
        Err(e) => return Err(e),
    };
    Ok(fs_command(distro.as_str(), linux_path.as_str(), read_file_script(relative_path).as_str(), None))
}

/// Writes a file given relative to the repository, creating its directory.
pub fn write_repo_file(repo: &RepoDescriptor, relative_path: &str, content: &str) -> (r: Result<FsCommand, TrunkError>)
    ensures
        repo.locator is Wsl <==> r is Ok,
        r matches Ok(c) ==> runs_in_repo(
            *repo,
            c,
            "mkdir -p -- \"$(dirname -- "@ + single_quoted(relative_path@) + ")\" && cat > "@
                + single_quoted(relative_path@),
            Some(content@),
        ),
        r matches Err(e) ==> e.code@ == "backend_descriptor_mismatch"@,
{
    let (distro, linux_path) = match descriptor_parts(repo) {
        Ok(p) => p,
        Err(e) => return Err(e),
    };
    Ok(fs_command(distro.as_str(), linux_path.as_str(), write_file_script(relative_path).as_str(), Some(content)))
}

/// Reads a file by its absolute Linux path.
pub fn read_absolute_file(repo: &RepoDescriptor, path: &str) -> (r: Result<FsCommand, TrunkError>)
    ensures
        repo.locator is Wsl <==> r is Ok,
        r matches Ok(c) ==> runs_in_repo(*repo, c, "cat -- "@ + single_quoted(path@), None),
        r matches Err(e) ==> e.code@ == "backend_descriptor_mismatch"@,
{
    read_repo_file(repo, path)
}

/// Writes a file by its absolute Linux path, creating its directory.
pub fn write_absolute_file(repo: &RepoDescriptor, path: &str, content: &str) -> (r: Result<FsCommand, TrunkError>)
    ensures
        repo.locator is Wsl <==> r is Ok,
        r matches Ok(c) ==> runs_in_repo(
            *repo,
            c,
            "mkdir -p -- \"$(dirname -- "@ + single_quoted(path@) + ")\" && cat > "@ + single_quoted(
                path@,
            ),
            Some(content@),
        ),
        r matches Err(e) ==> e.code@ == "backend_descriptor_mismatch"@,
{
    write_repo_file(repo, path, content)
}

/// Deletes a file given relative to the repository; a missing file is fine.
pub fn delete_repo_file(repo: &RepoDescriptor, relative_path: &str) -> (r: Result<FsCommand, TrunkError>)
    ensures
        repo.locator is Wsl <==> r is Ok,
        r matches Ok(c) ==> runs_in_repo(*repo, c, "rm -f -- "@ + single_quoted(relative_path@), None),
        r matches Err(e) ==> e.code@ == "backend_descriptor_mismatch"@,
{
    let (distro, linux_path) = match descriptor_parts(repo) {
        Ok(p) => p,
        Err(e) => return Err(e),
    };
    Ok(fs_command(distro.as_str(), linux_path.as_str(), delete_file_script(relative_path).as_str(), None))
}

/// The token whose change means the repository changed: the status and
/// `HEAD`, as the poll script prints them.
pub fn poll_token(repo: &RepoDescriptor) -> (r: Result<FsCommand, TrunkError>)
    ensures
        repo.locator is Wsl <==> r is Ok,
        r matches Ok(c) ==> runs_in_repo(*repo, c, POLL_TOKEN_SCRIPT@, None),
        r matches Err(e) ==> e.code@ == "backend_descriptor_mismatch"@,
{
    let (distro, linux_path) = match descriptor_parts(repo) {
        Ok(p) => p,
        Err(e) => return Err(e),
    };
    Ok(fs_command(distro.as_str(), linux_path.as_str(), POLL_TOKEN_SCRIPT, None))
}

/// The temporary directory `/tmp/<name>` for a WSL repository, and the
/// command that creates it.
pub fn create_temp_dir(repo: &RepoDescriptor, name: &str) -> (r: Result<(WslTempDir, FsCommand), TrunkError>)
    ensures
        repo.locator is Wsl <==> r is Ok,
        r matches Ok((t, c)) ==> t.linux_path@ == "/tmp/"@ + name@ && runs_in_repo(
            *repo,
            c,
            "mkdir -p -- "@ + single_quoted("/tmp/"@ + name@),
            None,
        ) && match repo.locator {
            RepoLocator::Wsl { distro, linux_path } => t.distro@ == distro@ && t.repo_path@
                == linux_path@,
            RepoLocator::Local { .. } => false,
        },
        r matches Err(e) ==> e.code@ == "backend_descriptor_mismatch"@,
{
    let (distro, repo_path) = match descriptor_parts(repo) {
        Ok(p) => p,
        Err(e) => return Err(e),
    };
    let mut d = chars_of("/tmp/");
    push_str(&mut d, name);
    let dir = string_of(&d);
    let c = fs_command(distro.as_str(), repo_path.as_str(), make_dir_script(dir.as_str()).as_str(), None);
    Ok((WslTempDir { distro, repo_path, linux_path: dir }, c))
}

impl WslTempDir {
    /// The Linux path of a child of the directory.
    pub fn join_display(&self, child: &str) -> (r: String)
        ensures
            r@ == child_path(self.linux_path@, child@),
    {
        let mut v = chars_of(self.linux_path.as_str());
        push_str(&mut v, "/");
        push_str(&mut v, child);
        string_of(&v)
    }

    /// Writes `content` to a child, creating its parent directory, and makes
    /// it executable when asked.
    pub fn write_file(&self, child: &str, content: &str, executable: bool) -> (r: FsCommand)
        ensures
            arg_views(r.args@) == sh_invocation(
                self.distro@,
                self.repo_path@,
                "TARGET="@ + single_quoted(child_path(self.linux_path@, child@))
                    + "; mkdir -p -- \"$(dirname -- \"$TARGET\")\" && cat > \"$TARGET\""@ + (if executable {
                    " && chmod 755 -- $TARGET"@
                } else {
                    ""@
                }),
            ),
            stdin_view(r) == Some(content@),
    {
        let target = shell_single_quote(self.join_display(child).as_str());
        let mut v = chars_of("TARGET=");
        push_str(&mut v, target.as_str());
        push_str(&mut v, "; mkdir -p -- \"$(dirname -- \"$TARGET\")\" && cat > \"$TARGET\"");
        if executable {
            push_str(&mut v, " && chmod 755 -- $TARGET");
        } else {
            push_str(&mut v, "");
        }
        let script = string_of(&v);
        fs_command(self.distro.as_str(), self.repo_path.as_str(), script.as_str(), Some(content))
    }

    /// Creates a child directory.
    pub fn create_dir_all(&self, child: &str) -> (r: FsCommand)
        ensures
            arg_views(r.args@) == sh_invocation(
                self.distro@,
                self.repo_path@,
                "mkdir -p -- "@ + single_quoted(child_path(self.linux_path@, child@)),
            ),
            stdin_view(r) is None,
    {
        let script = make_dir_script(self.join_display(child).as_str());
        fs_command(self.distro.as_str(), self.repo_path.as_str(), script.as_str(), None)
    }

    /// Removes the directory and everything in it.
    pub fn cleanup(&self) -> (r: FsCommand)
        ensures
            arg_views(r.args@) == sh_invocation(
                self.distro@,
                self.repo_path@,
                "rm -rf -- "@ + single_quoted(self.linux_path@),
            ),
            stdin_view(r) is None,
    {
        let mut v = chars_of("rm -rf -- ");
        let q = shell_single_quote(self.linux_path.as_str());
        push_str(&mut v, q.as_str());
        let script = string_of(&v);
        fs_command(self.distro.as_str(), self.repo_path.as_str(), script.as_str(), None)
    }
}

} // verus!
