//! Markdown rendering of a review session.
//!
//! The renderer never fails: every comment lands in the document, either next
//! to its excerpt or in the trailing section for anchors that no longer
//! resolve. Reading the excerpts from the repository is done by
//! `git::excerpt`, whose entry points are also reachable from here.
use vstd::prelude::*;

pub use crate::git::excerpt::{render, slice_diff, slice_full_file, try_resolve_excerpt};

use crate::git::types::{extension, extension_of, Anchor, Comment, ReviewSession, Source};
use crate::text::{chars_of, decimal, decimal_of, lines, lines_of, push_all, push_str, views};

verus! {

// ---------------------------------------------------------------------------
// Fences
// ---------------------------------------------------------------------------

/// Longest run of backticks seen so far and the length of the current run.
pub open spec fn backtick_runs(s: Seq<char>) -> (nat, nat)
    decreases s.len(),
{
    if s.len() == 0 {
        (0, 0)
    } else {
        let (longest, cur) = backtick_runs(s.drop_last());
        if s.last() == '`' {
            let c = cur + 1;
            (if c > longest {
                c
            } else {
                longest
            }, c)
        } else {
            (longest, 0)
        }
    }
}

/// Fence length for a body: `max(3, longest backtick run + 1)`, so that the
/// fence is longer than any run of backticks inside (a length that would not
/// fit in `usize` is capped at `usize::MAX`).
pub open spec fn fence_len(body: Seq<char>) -> nat {
    let l = backtick_runs(body).0 + 1;
    if l > usize::MAX {
        usize::MAX as nat
    } else if l > 3 {
        l
    } else {
        3
    }
}

/// Positions `i..j` of `s` are all backticks.
pub open spec fn backtick_run(s: Seq<char>, i: int, j: int) -> bool {
    &&& 0 <= i <= j <= s.len()
    &&& forall|k: int| i <= k < j ==> s[k] == '`'
}

proof fn lemma_runs_bound(s: Seq<char>, i: int, j: int)
    requires
        backtick_run(s, i, j),
    ensures
        j - i <= backtick_runs(s).0,
        j == s.len() ==> j - i <= backtick_runs(s).1,
        backtick_runs(s).1 <= backtick_runs(s).0 <= s.len(),
    decreases s.len(),
{
    if s.len() > 0 {
        let t = s.drop_last();
        if j <= t.len() {
            lemma_runs_bound(t, i, j);
        } else if i == j {
            lemma_runs_bound(t, 0, 0);
        } else {
            assert(s.last() == s[j - 1]);
            lemma_runs_bound(t, i, j - 1);
        }
    }
}

/// The fence around an excerpt is at least three backticks long and longer
/// than every run of backticks inside the excerpt, so the excerpt cannot
/// close it early.
pub proof fn lemma_fence_outruns_backticks(body: Seq<char>, i: int, j: int)
    requires
        backtick_run(body, i, j),
        body.len() < usize::MAX,
    ensures
        j - i < fence_len(body),
        fence_len(body) >= 3,
{
    lemma_runs_bound(body, i, j);
}

proof fn lemma_runs_attained(s: Seq<char>)
    ensures
        backtick_runs(s).1 <= s.len(),
        backtick_run(s, s.len() - backtick_runs(s).1, s.len() as int),
        exists|i: int, j: int| #![trigger backtick_run(s, i, j)] backtick_run(s, i, j) && j - i == backtick_runs(s).0,
    decreases s.len(),
{
    if s.len() == 0 {
        assert(backtick_run(s, 0, 0));
    } else {
        let t = s.drop_last();
        lemma_runs_attained(t);
        let (longest, cur) = backtick_runs(t);
        let (i0, j0) = choose|i: int, j: int| #![trigger backtick_run(t, i, j)] backtick_run(t, i, j) && j - i == longest;
        assert(backtick_run(s, i0, j0)) by {
            assert forall|k: int| i0 <= k < j0 implies s[k] == '`' by {
                assert(s[k] == t[k]);
            }
        }
        if s.last() == '`' {
            let c = cur + 1;
            assert(backtick_run(s, s.len() - c, s.len() as int)) by {
                assert forall|k: int| s.len() - c <= k < s.len() implies s[k] == '`' by {
                    if k < t.len() {
                        assert(s[k] == t[k]);
                        assert(t.len() - cur <= k);
                    }
                }
            }
            if c > longest {
                assert(backtick_run(s, s.len() - c, s.len() as int));
            }
        } else {
            assert(backtick_run(s, s.len() as int, s.len() as int));
        }
    }
}

/// The fence is exactly as long as it must be: three backticks, or one more
/// than the longest run of backticks inside the excerpt.
pub proof fn lemma_fence_is_shortest(body: Seq<char>)
    requires
        body.len() < usize::MAX,
    ensures
        fence_len(body) == 3 || exists|i: int, j: int|
            #![trigger backtick_run(body, i, j)]
            backtick_run(body, i, j) && j - i + 1 == fence_len(body),
{
    lemma_runs_attained(body);
    lemma_runs_bound(body, 0, 0);
}

/// The fence length for `body`.
pub fn fence_length(body: &str) -> (r: usize)
    ensures
        r as nat == fence_len(body@),
{
    let cs = chars_of(body);
    let mut longest: usize = 0;
    let mut current: usize = 0;
    for i in 0..cs.len()
        invariant
            (longest as nat, current as nat) == backtick_runs(cs@.take(i as int)),
            current <= i,
            longest <= i,
            cs@ == body@,
    {
        assert(cs@.take(i + 1).drop_last() =~= cs@.take(i as int));
        if cs[i] == '`' {
            current = current + 1;
            if current > longest {
                longest = current;
            }
        } else {
            current = 0;
        }
    }
    assert(cs@.take(cs@.len() as int) =~= cs@);
    if longest == usize::MAX {
        usize::MAX
    } else if longest + 1 > 3 {
        longest + 1
    } else {
        3
    }
}

/// Markdown info string for a full-file excerpt, from the file extension.
pub open spec fn language_for(ext: Seq<char>) -> Seq<char> {
    if ext == "rs"@ {
        "rust"@
    } else if ext == "ts"@ || ext == "mts"@ || ext == "cts"@ {
        "typescript"@
    } else if ext == "tsx"@ {
        "tsx"@
    } else if ext == "js"@ || ext == "mjs"@ || ext == "cjs"@ {
        "javascript"@
    } else if ext == "jsx"@ {
        "jsx"@
    } else if ext == "svelte"@ {
        "svelte"@
    } else if ext == "json"@ {
        "json"@
    } else if ext == "md"@ || ext == "markdown"@ {
        "markdown"@
    } else if ext == "toml"@ {
        "toml"@
    } else if ext == "yaml"@ || ext == "yml"@ {
        "yaml"@
    } else if ext == "css"@ {
        "css"@
    } else if ext == "html"@ || ext == "htm"@ {
        "html"@
    } else if ext == "sh"@ || ext == "bash"@ {
        "bash"@
    } else if ext == "py"@ {
        "python"@
    } else if ext == "go"@ {
        "go"@
    } else {
        "text"@
    }
}

/// Markdown info string for a file path (no extension counts as empty).
pub open spec fn fence_language_of(path: Seq<char>) -> Seq<char> {
    language_for(
        match extension(path) {
            Some(e) => e,
            None => Seq::empty(),
        },
    )
}

fn is_ext(e: &[char], lit: &str) -> (r: bool)
    ensures
        r == (e@ == lit@),
{
    let l = chars_of(lit);
    crate::text::chars_eq(e, &l)
}

/// Markdown info string for a full-file excerpt of `file_path`.
pub fn fence_language(file_path: &str) -> (r: &'static str)
    ensures
        r@ == fence_language_of(file_path@),
{
    let p = chars_of(file_path);
    let e = match extension_of(&p) {
        Some(e) => e,
        None => Vec::new(),
    };
    assert(e@ == (match extension(file_path@) {
        Some(x) => x,
        None => Seq::<char>::empty(),
    }));
    if is_ext(&e, "rs") {
        "rust"
    } else if is_ext(&e, "ts") || is_ext(&e, "mts") || is_ext(&e, "cts") {
        "typescript"
    } else if is_ext(&e, "tsx") {
        "tsx"
    } else if is_ext(&e, "js") || is_ext(&e, "mjs") || is_ext(&e, "cjs") {
        "javascript"
    } else if is_ext(&e, "jsx") {
        "jsx"
    } else if is_ext(&e, "svelte") {
        "svelte"
    } else if is_ext(&e, "json") {
        "json"
    } else if is_ext(&e, "md") || is_ext(&e, "markdown") {
        "markdown"
    } else if is_ext(&e, "toml") {
        "toml"
    } else if is_ext(&e, "yaml") || is_ext(&e, "yml") {
        "yaml"
    } else if is_ext(&e, "css") {
        "css"
    } else if is_ext(&e, "html") || is_ext(&e, "htm") {
        "html"
    } else if is_ext(&e, "sh") || is_ext(&e, "bash") {
        "bash"
    } else if is_ext(&e, "py") {
        "python"
    } else if is_ext(&e, "go") {
        "go"
    } else {
        "text"
    }
}

// ---------------------------------------------------------------------------
// Line slices
// ---------------------------------------------------------------------------

/// Every `\r\n` replaced by `\n`, scanning left to right.
pub open spec fn crlf_to_lf(s: Seq<char>) -> Seq<char>
    decreases s.len(),
{
    if s.len() == 0 {
        Seq::empty()
    } else if s.len() >= 2 && s[0] == '\r' && s[1] == '\n' {
        seq!['\n'] + crlf_to_lf(s.skip(2))
    } else {
        seq![s[0]] + crlf_to_lf(s.skip(1))
    }
}

/// `s.replace("\r\n", "\n")`.
pub fn normalize_crlf(s: &[char]) -> (r: Vec<char>)
    ensures
        r@ == crlf_to_lf(s@),
{
    let n = s.len();
    let mut out: Vec<char> = Vec::new();
    let mut i: usize = 0;
    assert(s@.skip(0) =~= s@);
    while i < n
        invariant
            n == s@.len(),
            i <= n,
            out@ + crlf_to_lf(s@.skip(i as int)) == crlf_to_lf(s@),
        decreases n - i,
    {
        let ghost t = s@.skip(i as int);
        if s[i] == '\r' && i + 1 < n && s[i + 1] == '\n' {
            assert(t.skip(2) =~= s@.skip(i + 2));
            assert(out@.push('\n') + crlf_to_lf(s@.skip(i + 2)) =~= out@ + crlf_to_lf(t));
            out.push('\n');
            i = i + 2;
        } else {
            assert(t.skip(1) =~= s@.skip(i + 1));
            assert(out@.push(s@[i as int]) + crlf_to_lf(s@.skip(i + 1)) =~= out@ + crlf_to_lf(t));
            out.push(s[i]);
            i = i + 1;
        }
    }
    assert(crlf_to_lf(s@.skip(n as int)) =~= Seq::<char>::empty());
    assert(out@ + Seq::<char>::empty() =~= out@);
    out
}

/// Lines joined with `sep` between them.
pub open spec fn join(ls: Seq<Seq<char>>, sep: Seq<char>) -> Seq<char>
    decreases ls.len(),
{
    if ls.len() == 0 {
        Seq::empty()
    } else if ls.len() == 1 {
        ls[0]
    } else {
        join(ls.drop_last(), sep) + sep + ls.last()
    }
}

/// Lines `start..=end` (1-based) of `content` after CRLF normalisation,
/// joined with `\n`; `None` when the range is empty, starts at 0 or runs past
/// the last line.
pub open spec fn line_slice(content: Seq<char>, start: u32, end: u32) -> Option<Seq<char>> {
    let ls = lines(crlf_to_lf(content));
    if start == 0 || end < start {
        None
    } else if end > (ls.len() as u32) {
        None
    } else {
        Some(join(ls.subrange(start - 1, end as int), "\n"@))
    }
}

/// Lines `start..=end` of `content` (1-based, inclusive), LF-normalised.
pub fn slice_lines(content: &str, start_line: u32, end_line: u32) -> (r: Option<String>)
    ensures
        match r {
            Some(s) => line_slice(content@, start_line, end_line) == Some(s@),
            None => line_slice(content@, start_line, end_line) is None,
        },
{
    if start_line == 0 || end_line < start_line {
        return None;
    }
    let cs = chars_of(content);
    let normalised = normalize_crlf(&cs);
    let ls = lines_of(&normalised);
    let line_count = ls.len() as u32;
    if end_line > line_count {
        return None;
    }
    let ghost all = views(ls@);
    assert(line_count as nat <= all.len()) by {
        assert((ls@.len() as u32) <= ls@.len());
    }
    let start_idx = (start_line - 1) as usize;
    let end_idx = end_line as usize;
    let mut out: Vec<char> = Vec::new();
    let mut i = start_idx;
    let ghost nl = "\n"@;
    proof {
        reveal_strlit("\n");
    }
    while i < end_idx
        invariant
            start_idx < end_idx <= all.len(),
            start_idx <= i <= end_idx,
            all == views(ls@),
            nl == "\n"@,
            nl == seq!['\n'],
            out@ == join(all.subrange(start_idx as int, i as int), nl),
        decreases end_idx - i,
    {
        let ghost prev = all.subrange(start_idx as int, i as int);
        if i > start_idx {
            out.push('\n');
        }
        push_all(&mut out, &ls[i]);
        proof {
            let nxt = all.subrange(start_idx as int, i + 1);
            assert(nxt.drop_last() =~= prev);
            assert(nxt.last() == ls@[i as int]@);
            if i > start_idx {
                assert(out@ =~= join(prev, nl) + nl + ls@[i as int]@);
            } else {
                assert(nxt.len() == 1);
                assert(out@ =~= nxt[0]);
            }
        }
        i = i + 1;
    }
    Some(crate::text::string_of(&out))
}

// ---------------------------------------------------------------------------
// Failure phrases
// ---------------------------------------------------------------------------

/// Why an anchor no longer resolves.
#[derive(Debug, Clone, Copy, PartialEq, Eq, Structural)]
pub enum OrphanReason {
    CommitGone,
    FileGone,
    LineOutOfRange,
}

/// Why an excerpt could not be produced.
#[derive(Debug, Clone, Copy, PartialEq, Eq, Structural)]
pub enum ExcerptError {
    /// The blob is binary: the comment stays in the resolved section with a
    /// placeholder.
    Binary,
    /// The anchor was rejected before slicing.
    Orphaned(OrphanReason),
    /// Reading the repository failed while slicing.
    ResolutionFailed,
    /// Replaying the diff gave an empty body.
    NoHunks,
}

pub open spec fn orphan_text(r: OrphanReason) -> Seq<char> {
    match r {
        OrphanReason::CommitGone => "commit no longer exists in the repository"@,
        OrphanReason::FileGone => "file no longer exists at this commit/side"@,
        OrphanReason::LineOutOfRange => "anchor line range is outside the current file bounds"@,
    }
}

pub open spec fn excerpt_error_text(e: ExcerptError) -> Seq<char> {
    match e {
        ExcerptError::Orphaned(r) => orphan_text(r),
        ExcerptError::NoHunks => "diff hunk no longer exists at this commit"@,
        ExcerptError::ResolutionFailed => "excerpt could not be re-resolved from the repository"@,
        ExcerptError::Binary => "binary blob has no text excerpt"@,
    }
}

/// The sentence that explains an orphaned anchor.
pub fn orphan_phrase(reason: OrphanReason) -> (r: &'static str)
    ensures
        r@ == orphan_text(reason),
{
    match reason {
        OrphanReason::CommitGone => "commit no longer exists in the repository",
        OrphanReason::FileGone => "file no longer exists at this commit/side",
        OrphanReason::LineOutOfRange => "anchor line range is outside the current file bounds",
    }
}

/// The sentence that explains an excerpt failure.
pub fn excerpt_error_phrase(err: ExcerptError) -> (r: &'static str)
    ensures
        r@ == excerpt_error_text(err),
{
    match err {
        ExcerptError::Orphaned(r) => orphan_phrase(r),
        ExcerptError::NoHunks => "diff hunk no longer exists at this commit",
        ExcerptError::ResolutionFailed => "excerpt could not be re-resolved from the repository",
        ExcerptError::Binary => "binary blob has no text excerpt",
    }
}

// ---------------------------------------------------------------------------
// Short ids
// ---------------------------------------------------------------------------

/// Bytes of a character in UTF-8.
pub open spec fn utf8_len(c: char) -> nat {
    if (c as u32) < 0x80 {
        1
    } else if (c as u32) < 0x800 {
        2
    } else if (c as u32) < 0x10000 {
        3
    } else {
        4
    }
}

/// UTF-8 byte length of a character sequence.
pub open spec fn utf8_size(s: Seq<char>) -> nat
    decreases s.len(),
{
    if s.len() == 0 {
        0
    } else {
        utf8_size(s.drop_last()) + utf8_len(s.last())
    }
}

/// The leading characters that take exactly `k` bytes, if a character
/// boundary falls at byte `k` (`str::get(..k)`).
pub open spec fn byte_prefix(s: Seq<char>, k: nat) -> Option<Seq<char>> {
    if exists|j: int| 0 <= j <= s.len() && utf8_size(#[trigger] s.take(j)) == k {
        Some(s.take(choose|j: int| 0 <= j <= s.len() && utf8_size(#[trigger] s.take(j)) == k))
    } else {
        None
    }
}

/// At most seven bytes of an id: the first seven bytes when they end on a
/// character boundary, else the whole id.
pub open spec fn short_sha_of(oid: Seq<char>) -> Seq<char> {
    match byte_prefix(oid, 7) {
        Some(p) => p,
        None => oid,
    }
}

fn utf8_len_of(c: char) -> (r: usize)
    ensures
        r as nat == utf8_len(c),
{
    if (c as u32) < 0x80 {
        1
    } else if (c as u32) < 0x800 {
        2
    } else if (c as u32) < 0x10000 {
        3
    } else {
        4
    }
}

proof fn lemma_utf8_size_mono(s: Seq<char>, a: int, b: int)
    requires
        0 <= a <= b <= s.len(),
    ensures
        utf8_size(s.take(a)) + (b - a) <= utf8_size(s.take(b)),
    decreases b - a,
{
    if a < b {
        lemma_utf8_size_mono(s, a, b - 1);
        assert(s.take(b).drop_last() =~= s.take(b - 1));
    }
}

/// The abbreviated form of an id used in headings.
pub fn short_sha(oid: &[char]) -> (r: Vec<char>)
    ensures
        r@ == short_sha_of(oid@),
{
    let n = oid.len();
    let mut i: usize = 0;
    let mut bytes: usize = 0;
    assert(oid@.take(0) =~= Seq::<char>::empty());
    while i < n && bytes < 7
        invariant
            n == oid@.len(),
            i <= n,
            bytes as nat == utf8_size(oid@.take(i as int)),
            bytes < 7 ==> forall|j: int| 0 <= j <= i ==> utf8_size(#[trigger] oid@.take(j)) < 7,
            bytes >= 7 ==> bytes < 11,
            i > 0 ==> utf8_size(oid@.take(i - 1)) < 7,
        decreases n - i,
    {
        assert(oid@.take(i + 1).drop_last() =~= oid@.take(i as int));
        bytes = bytes + utf8_len_of(oid[i]);
        i = i + 1;
        proof {
            if bytes < 7 {
                assert forall|j: int| 0 <= j <= i implies utf8_size(#[trigger] oid@.take(j)) < 7 by {
                    if j <= i - 1 {
                        lemma_utf8_size_mono(oid@, j, i as int);
                    }
                }
            }
        }
    }
    if bytes == 7 {
        proof {
            assert(utf8_size(oid@.take(i as int)) == 7);
            let j = choose|j: int| 0 <= j <= oid@.len() && utf8_size(#[trigger] oid@.take(j)) == 7;
            if j < i {
                lemma_utf8_size_mono(oid@, j, i - 1);
            } else if j > i {
                lemma_utf8_size_mono(oid@, i as int, j);
            }
            assert(j == i);
        }
        crate::text::slice_of(oid, 0, i)
    } else {
        proof {
            if bytes > 7 {
                assert forall|j: int| 0 <= j <= oid@.len() implies utf8_size(#[trigger] oid@.take(j)) != 7 by {
                    if j >= i {
                        lemma_utf8_size_mono(oid@, i as int, j);
                    } else {
                        lemma_utf8_size_mono(oid@, j, i - 1);
                    }
                }
            } else {
                assert(i == n);
                assert forall|j: int| 0 <= j <= oid@.len() implies utf8_size(#[trigger] oid@.take(j)) != 7 by {}
            }
        }
        crate::text::copy_chars(oid)
    }
}

// ---------------------------------------------------------------------------
// Document pieces
// ---------------------------------------------------------------------------

/// `text`, with a newline added unless it already ends with one.
pub open spec fn ensure_nl(s: Seq<char>) -> Seq<char> {
    if s.len() > 0 && s.last() == '\n' {
        s
    } else {
        s.push('\n')
    }
}

pub open spec fn backticks(n: nat) -> Seq<char> {
    Seq::new(n, |i: int| '`')
}

/// A fenced code block followed by a blank line.
pub open spec fn fence_block(body: Seq<char>, info: Seq<char>) -> Seq<char> {
    let f = backticks(fence_len(body));
    f + info + "\n"@ + ensure_nl(body) + f + "\n"@ + "\n"@
}

fn push_ensure_nl(out: &mut Vec<char>, text: &str)
    ensures
        final(out)@ == old(out)@ + ensure_nl(text@),
{
    let cs = chars_of(text);
    push_all(out, &cs);
    if cs.len() == 0 || cs[cs.len() - 1] != '\n' {
        out.push('\n');
    }
}

fn push_backticks(out: &mut Vec<char>, n: usize)
    ensures
        final(out)@ == old(out)@ + backticks(n as nat),
{
    let ghost start = out@;
    for i in 0..n
        invariant
            out@ == start + backticks(i as nat),
    {
        out.push('`');
        assert(out@ =~= start + backticks((i + 1) as nat));
    }
}

/// Writes a fenced block whose fence outgrows any backtick run in `body`.
pub fn emit_fence(out: &mut Vec<char>, body: &str, info: &str)
    ensures
        final(out)@ == old(out)@ + fence_block(body@, info@),
{
    let ghost start = out@;
    let n = fence_length(body);
    push_backticks(out, n);
    push_str(out, info);
    push_str(out, "\n");
    push_ensure_nl(out, body);
    push_backticks(out, n);
    push_str(out, "\n");
    push_str(out, "\n");
    assert(out@ =~= start + fence_block(body@, info@));
}

fn push_dec(out: &mut Vec<char>, n: u32)
    ensures
        final(out)@ == old(out)@ + decimal(n as nat),
{
    let d = decimal_of(n as u64);
    push_all(out, &d);
}

/// What a comment resolved to when the document is rendered.
pub enum Resolved {
    /// The anchor resolved: its excerpt and the fence info string.
    Anchored { excerpt: String, info: String },
    /// The anchor resolved to a binary blob.
    Binary,
    /// A commit-level comment on a commit that exists, with its summary.
    CommitLevel { subject: Option<String> },
    /// Anything else, with the sentence that explains why.
    Unresolvable { phrase: String },
}

/// What looking up a comment's target in the repository gave.
pub enum CommentLookup {
    /// An anchored comment: the excerpt, or why there is none.
    Excerpt(Result<String, ExcerptError>),
    /// A commit-level comment: whether the commit exists, and its summary.
    Commit { exists: bool, summary: Option<String> },
    /// A comment with neither anchor nor commit.
    Nothing,
}

/// Whether a lookup has the shape its comment calls for.
pub open spec fn lookup_fits(c: Comment, l: CommentLookup) -> bool {
    match c.anchor {
        Some(_) => l is Excerpt,
        None => match c.commit_oid {
            Some(_) => l is Commit,
            None => l is Nothing,
        },
    }
}

/// The fence info string for an anchor: `diff` for diff excerpts, else the
/// file's language.
pub open spec fn anchor_info(a: Anchor) -> Seq<char> {
    match a.source {
        Source::Diff => "diff"@,
        Source::FullFile => fence_language_of(a.file_path@),
    }
}

/// How a comment is rendered, given its lookup.
pub open spec fn resolution_of(c: Comment, l: CommentLookup, r: Resolved) -> bool {
    match c.anchor {
        Some(a) => match l {
            CommentLookup::Excerpt(Ok(body)) => r matches Resolved::Anchored { excerpt, info }
                && excerpt@ == body@ && info@ == anchor_info(a),
            CommentLookup::Excerpt(Err(ExcerptError::Binary)) => r is Binary,
            CommentLookup::Excerpt(Err(e)) => r matches Resolved::Unresolvable { phrase }
                && phrase@ == excerpt_error_text(e),
            _ => false,
        },
        None => match (c.commit_oid, l) {
            (Some(_), CommentLookup::Commit { exists, summary }) => if exists {
                r matches Resolved::CommitLevel { subject } && match (subject, summary) {
                    (Some(x), Some(y)) => x@ == y@,
                    (None, None) => true,
                    _ => false,
                }
            } else {
                r matches Resolved::Unresolvable { phrase } && phrase@ == orphan_text(
                    OrphanReason::CommitGone,
                )
            },
            _ => r matches Resolved::Unresolvable { phrase } && phrase@ == orphan_text(
                OrphanReason::CommitGone,
            ),
        },
    }
}

/// Every comment falls in exactly one section of the review: among the
/// anchored comments when its anchor's excerpt was read or its blob is
/// binary; among the commit-level comments when it has no anchor and its
/// commit exists; among the unresolvable anchors otherwise.
pub proof fn lemma_one_section(c: Comment, l: CommentLookup, r: Resolved)
    requires
        resolution_of(c, l, r),
    ensures
        is_anchored(r) || is_commit_level(r) || is_unresolvable(r),
        !(is_anchored(r) && is_commit_level(r)),
        !(is_anchored(r) && is_unresolvable(r)),
        !(is_commit_level(r) && is_unresolvable(r)),
        is_anchored(r) <==> c.anchor is Some && (l matches CommentLookup::Excerpt(Ok(_)) || l
            == CommentLookup::Excerpt(Err(ExcerptError::Binary))),
        is_commit_level(r) <==> c.anchor is None && c.commit_oid is Some && (l matches CommentLookup::Commit {
            exists: true,
            ..
        }),
{
}

fn copy_string(s: &String) -> (r: String)
    ensures
        r@ == s@,
{
    s.clone()
}

/// Decides how a comment is rendered from what its lookup gave.
pub fn resolve_comment(c: &Comment, lookup: &CommentLookup) -> (r: Resolved)
    requires
        lookup_fits(*c, *lookup),
    ensures
        resolution_of(*c, *lookup, r),
{
    match &c.anchor {
        Some(a) => match lookup {
            CommentLookup::Excerpt(Ok(body)) => {
                let info = match a.source {
                    Source::Diff => String::from_str("diff"),
                    Source::FullFile => String::from_str(fence_language(a.file_path.as_str())),
                };
                Resolved::Anchored { excerpt: copy_string(body), info }
            },
            CommentLookup::Excerpt(Err(ExcerptError::Binary)) => Resolved::Binary,
            CommentLookup::Excerpt(Err(e)) => Resolved::Unresolvable {
                phrase: String::from_str(excerpt_error_phrase(*e)),
            },
            _ => Resolved::Binary,
        },
        None => match (&c.commit_oid, lookup) {
            (Some(_), CommentLookup::Commit { exists, summary }) => {
                if *exists {
                    let subject = match summary {
                        Some(x) => Some(copy_string(x)),
                        None => None,
                    };
                    Resolved::CommitLevel { subject }
                } else {
                    Resolved::Unresolvable {
                        phrase: String::from_str(orphan_phrase(OrphanReason::CommitGone)),
                    }
                }
            },
            _ => Resolved::Unresolvable {
                phrase: String::from_str(orphan_phrase(OrphanReason::CommitGone)),
            },
        },
    }
}

// ---------------------------------------------------------------------------
// Ordering of anchored comments
// ---------------------------------------------------------------------------

/// Lexicographic `a <= b` over characters (byte order of UTF-8 strings).
pub open spec fn lex_le(a: Seq<char>, b: Seq<char>) -> bool
    decreases a.len(),
{
    if a.len() == 0 {
        true
    } else if b.len() == 0 {
        false
    } else if a[0] != b[0] {
        a[0] < b[0]
    } else {
        lex_le(a.skip(1), b.skip(1))
    }
}

/// Lexicographic comparison of two character slices.
fn lex_le_chars(a: &[char], b: &[char]) -> (r: bool)
    ensures
        r == lex_le(a@, b@),
{
    let n = a.len();
    let m = b.len();
    let mut i: usize = 0;
    assert(a@.skip(0) =~= a@);
    assert(b@.skip(0) =~= b@);
    while i < n && i < m && a[i] == b[i]
        invariant
            n == a@.len(),
            m == b@.len(),
            i <= n,
            i <= m,
            lex_le(a@.skip(i as int), b@.skip(i as int)) == lex_le(a@, b@),
        decreases n - i,
    {
        assert(a@.skip(i as int).skip(1) =~= a@.skip(i + 1));
        assert(b@.skip(i as int).skip(1) =~= b@.skip(i + 1));
        i = i + 1;
    }
    if i == n {
        true
    } else if i == m {
        false
    } else {
        a[i] < b[i]
    }
}

/// The grouping and ordering key of an anchored comment.
pub open spec fn anchor_key(cs: Seq<Comment>, i: int) -> (Seq<char>, Seq<char>, u32) {
    let a = cs[i].anchor->0;
    (a.file_path@, a.commit_oid@, a.start_line)
}

/// Whether comment `i` sorts no later than comment `j`: by file path, then
/// commit id, then start line.
pub open spec fn key_le(cs: Seq<Comment>, i: int, j: int) -> bool {
    let (f1, o1, s1) = anchor_key(cs, i);
    let (f2, o2, s2) = anchor_key(cs, j);
    if f1 != f2 {
        lex_le(f1, f2)
    } else if o1 != o2 {
        lex_le(o1, o2)
    } else {
        s1 <= s2
    }
}

/// Inserts `x` after every element that sorts no later than it.
pub open spec fn insert_sorted(cs: Seq<Comment>, sorted: Seq<int>, x: int) -> Seq<int>
    decreases sorted.len(),
{
    if sorted.len() == 0 {
        seq![x]
    } else if key_le(cs, sorted.last(), x) {
        sorted.push(x)
    } else {
        insert_sorted(cs, sorted.drop_last(), x).push(sorted.last())
    }
}

/// Stable insertion sort of comment indices by `key_le`.
pub open spec fn sort_anchored(cs: Seq<Comment>, s: Seq<int>) -> Seq<int>
    decreases s.len(),
{
    if s.len() == 0 {
        Seq::empty()
    } else {
        insert_sorted(cs, sort_anchored(cs, s.drop_last()), s.last())
    }
}

fn key_le_of(cs: &Vec<Comment>, i: usize, j: usize) -> (r: bool)
    requires
        i < cs@.len(),
        j < cs@.len(),
        cs@[i as int].anchor is Some,
        cs@[j as int].anchor is Some,
    ensures
        r == key_le(cs@, i as int, j as int),
{
    let a = cs[i].anchor.as_ref().unwrap();
    let b = cs[j].anchor.as_ref().unwrap();
    let f1 = chars_of(a.file_path.as_str());
    let f2 = chars_of(b.file_path.as_str());
    if !crate::text::chars_eq(&f1, &f2) {
        return lex_le_chars(&f1, &f2);
    }
    let o1 = chars_of(a.commit_oid.as_str());
    let o2 = chars_of(b.commit_oid.as_str());
    if !crate::text::chars_eq(&o1, &o2) {
        return lex_le_chars(&o1, &o2);
    }
    a.start_line <= b.start_line
}

proof fn lemma_insert_split(cs: Seq<Comment>, sorted: Seq<int>, x: int, j: int)
    requires
        0 <= j <= sorted.len(),
        forall|k: int| j <= k < sorted.len() ==> !key_le(cs, #[trigger] sorted[k], x),
        j > 0 ==> key_le(cs, sorted[j - 1], x),
    ensures
        insert_sorted(cs, sorted, x) == sorted.take(j).push(x) + sorted.skip(j),
    decreases sorted.len(),
{
    if sorted.len() == j {
        if j == 0 {
            assert(sorted.take(0).push(x) + sorted.skip(0) =~= seq![x]);
        } else {
            assert(sorted.take(j).push(x) + sorted.skip(j) =~= sorted.push(x));
        }
    } else {
        lemma_insert_split(cs, sorted.drop_last(), x, j);
        assert(sorted.drop_last().take(j) =~= sorted.take(j));
        assert((sorted.take(j).push(x) + sorted.drop_last().skip(j)).push(sorted.last())
            =~= sorted.take(j).push(x) + sorted.skip(j));
    }
}

/// Sorts the indices of anchored comments (stable, by file, commit, line).
fn sort_indices(cs: &Vec<Comment>, idx: &Vec<usize>) -> (r: Vec<usize>)
    requires
        forall|k: int| 0 <= k < idx@.len() ==> #[trigger] idx@[k] < cs@.len() && cs@[idx@[k] as int].anchor is Some,
    ensures
        r@.map_values(|u: usize| u as int) == sort_anchored(cs@, idx@.map_values(|u: usize| u as int)),
        forall|k: int| 0 <= k < r@.len() ==> #[trigger] r@[k] < cs@.len() && cs@[r@[k] as int].anchor is Some,
{
    let ghost all = idx@.map_values(|u: usize| u as int);
    let mut sorted: Vec<usize> = Vec::new();
    for t in 0..idx.len()
        invariant
            all == idx@.map_values(|u: usize| u as int),
            forall|k: int| 0 <= k < idx@.len() ==> #[trigger] idx@[k] < cs@.len() && cs@[idx@[k] as int].anchor is Some,
            sorted@.map_values(|u: usize| u as int) == sort_anchored(cs@, all.take(t as int)),
            forall|k: int| 0 <= k < sorted@.len() ==> #[trigger] sorted@[k] < cs@.len() && cs@[sorted@[k] as int].anchor is Some,
    {
        let x = idx[t];
        let ghost sv = sorted@.map_values(|u: usize| u as int);
        let mut j = sorted.len();
        assert(all.take(t + 1).drop_last() =~= all.take(t as int));
        assert(all.take(t + 1).last() == x as int);
        while j > 0 && !key_le_of(cs, sorted[j - 1], x)
            invariant
                j <= sorted@.len(),
                sv == sorted@.map_values(|u: usize| u as int),
                x < cs@.len(),
                cs@[x as int].anchor is Some,
                forall|k: int| 0 <= k < sorted@.len() ==> #[trigger] sorted@[k] < cs@.len() && cs@[sorted@[k] as int].anchor is Some,
                forall|k: int| j <= k < sv.len() ==> !key_le(cs@, #[trigger] sv[k], x as int),
            decreases j,
        {
            j = j - 1;
        }
        proof {
            lemma_insert_split(cs@, sv, x as int, j as int);
        }
        sorted.insert(j, x);
        assert(sorted@.map_values(|u: usize| u as int) =~= sv.take(j as int).push(x as int) + sv.skip(j as int));
    }
    assert(all.take(idx@.len() as int) =~= all);
    sorted
}

// ---------------------------------------------------------------------------
// The document
// ---------------------------------------------------------------------------

pub open spec fn framing() -> Seq<char> {
    "This is a human-authored code review with anchored excerpts. Address each comment in the context of the excerpt it sits next to."@
}

/// Title and framing paragraph.
pub open spec fn header_part(name: Seq<char>) -> Seq<char> {
    "# Code review: "@ + name + "\n"@ + "\n"@ + framing() + "\n"@ + "\n"@
}

pub open spec fn subject_text(s: Option<String>) -> Seq<char> {
    match s {
        Some(x) => x@,
        None => "(subject unavailable)"@,
    }
}

pub open spec fn commit_lines(oids: Seq<String>, subjects: Seq<Option<String>>, k: int) -> Seq<char>
    decreases k,
{
    if k <= 0 {
        Seq::empty()
    } else {
        commit_lines(oids, subjects, k - 1) + "- "@ + short_sha_of(oids[k - 1]@) + " -- "@
            + subject_text(subjects[k - 1]) + "\n"@
    }
}

/// The list of reviewed commits, when there are any.
pub open spec fn commits_part(oids: Seq<String>, subjects: Seq<Option<String>>) -> Seq<char> {
    if oids.len() == 0 {
        Seq::empty()
    } else {
        "## Commits\n"@ + "\n"@ + commit_lines(oids, subjects, oids.len() as int) + "\n"@
    }
}

/// `<prefix><path>:L<start>-L<end> (<short id>)` and a newline.
pub open spec fn anchor_heading(a: Anchor, prefix: Seq<char>) -> Seq<char> {
    prefix + a.file_path@ + ":L"@ + decimal(a.start_line as nat) + "-L"@ + decimal(
        a.end_line as nat,
    ) + " ("@ + short_sha_of(a.commit_oid@) + ")\n"@
}

/// One resolved anchored comment: heading, excerpt (or placeholder), text.
pub open spec fn anchored_entry(c: Comment, r: Resolved) -> Seq<char> {
    anchor_heading(c.anchor->0, "#### "@) + "\n"@ + (match r {
        Resolved::Anchored { excerpt, info } => fence_block(excerpt@, info@),
        _ => "[binary file, no excerpt]\n"@ + "\n"@,
    }) + ensure_nl(c.text@) + "\n"@
}

/// Heading of a (file, commit) group.
pub open spec fn group_heading(a: Anchor) -> Seq<char> {
    "### "@ + a.file_path@ + " ("@ + short_sha_of(a.commit_oid@) + ")\n"@ + "\n"@
}

pub open spec fn same_group(cs: Seq<Comment>, i: int, j: int) -> bool {
    anchor_key(cs, i).0 == anchor_key(cs, j).0 && anchor_key(cs, i).1 == anchor_key(cs, j).1
}

pub open spec fn anchored_lines(cs: Seq<Comment>, res: Seq<Resolved>, sorted: Seq<int>, k: int) -> Seq<char>
    decreases k,
{
    if k <= 0 {
        Seq::empty()
    } else {
        let i = sorted[k - 1];
        anchored_lines(cs, res, sorted, k - 1) + (if k - 1 == 0 || !same_group(
            cs,
            sorted[k - 2],
            i,
        ) {
            group_heading(cs[i].anchor->0)
        } else {
            Seq::empty()
        }) + anchored_entry(cs[i], res[i])
    }
}

/// Indices (in comment order) whose resolution satisfies `p`.
pub open spec fn pick(res: Seq<Resolved>, p: spec_fn(Resolved) -> bool) -> Seq<int>
    decreases res.len(),
{
    if res.len() == 0 {
        Seq::empty()
    } else if p(res.last()) {
        pick(res.drop_last(), p).push(res.len() - 1)
    } else {
        pick(res.drop_last(), p)
    }
}

pub open spec fn is_anchored(r: Resolved) -> bool {
    r is Anchored || r is Binary
}

pub open spec fn is_commit_level(r: Resolved) -> bool {
    r is CommitLevel
}

pub open spec fn is_unresolvable(r: Resolved) -> bool {
    r is Unresolvable
}

/// Anchored comments grouped by (file, commit), groups and comments in
/// order.
pub open spec fn anchored_part(cs: Seq<Comment>, res: Seq<Resolved>) -> Seq<char> {
    let sorted = sort_anchored(cs, pick(res, |r: Resolved| is_anchored(r)));
    if sorted.len() == 0 {
        Seq::empty()
    } else {
        "## Anchored Comments\n"@ + "\n"@ + anchored_lines(cs, res, sorted, sorted.len() as int)
    }
}

pub open spec fn commit_level_entry(c: Comment, r: Resolved) -> Seq<char> {
    "### "@ + short_sha_of(c.commit_oid->0@) + " -- "@ + subject_text(r->subject) + "\n"@ + "\n"@
        + ensure_nl(c.text@) + "\n"@
}

pub open spec fn entries(cs: Seq<Comment>, res: Seq<Resolved>, idx: Seq<int>, k: int, f: spec_fn(Comment, Resolved) -> Seq<char>) -> Seq<char>
    decreases k,
{
    if k <= 0 {
        Seq::empty()
    } else {
        entries(cs, res, idx, k - 1, f) + f(cs[idx[k - 1]], res[idx[k - 1]])
    }
}

/// Commit-level comments, in order.
pub open spec fn commit_level_part(cs: Seq<Comment>, res: Seq<Resolved>) -> Seq<char> {
    let idx = pick(res, |r: Resolved| is_commit_level(r));
    if idx.len() == 0 {
        Seq::empty()
    } else {
        "## Commit-level Comments\n"@ + "\n"@ + entries(
            cs,
            res,
            idx,
            idx.len() as int,
            |c: Comment, r: Resolved| commit_level_entry(c, r),
        )
    }
}

pub open spec fn unresolvable_heading(c: Comment) -> Seq<char> {
    match c.anchor {
        Some(a) => anchor_heading(a, "### "@),
        None => match c.commit_oid {
            Some(o) => "### Commit-level note ("@ + short_sha_of(o@) + ")\n"@,
            None => "### Orphan note\n"@,
        },
    }
}

pub open spec fn cached_part(c: Comment) -> Seq<char> {
    match (c.anchor, c.cached_excerpt) {
        (Some(a), Some(x)) => "Anchor no longer resolves; excerpt is the cached snapshot from attach time.\n"@
            + "\n"@ + fence_block(x@, anchor_info(a)),
        _ => Seq::empty(),
    }
}

pub open spec fn unresolvable_entry(c: Comment, r: Resolved) -> Seq<char> {
    unresolvable_heading(c) + "\n"@ + r->phrase@ + ".\n"@ + "\n"@ + cached_part(c) + ensure_nl(c.text@)
        + "\n"@
}

/// Comments whose anchors no longer resolve, in order.
pub open spec fn unresolvable_part(cs: Seq<Comment>, res: Seq<Resolved>) -> Seq<char> {
    let idx = pick(res, |r: Resolved| is_unresolvable(r));
    if idx.len() == 0 {
        Seq::empty()
    } else {
        "## Unresolvable Anchors\n"@ + "\n"@ + entries(
            cs,
            res,
            idx,
            idx.len() as int,
            |c: Comment, r: Resolved| unresolvable_entry(c, r),
        )
    }
}

/// The whole review document.
pub open spec fn review_doc(
    name: Seq<char>,
    oids: Seq<String>,
    subjects: Seq<Option<String>>,
    cs: Seq<Comment>,
    res: Seq<Resolved>,
) -> Seq<char> {
    header_part(name) + commits_part(oids, subjects) + anchored_part(cs, res) + commit_level_part(
        cs,
        res,
    ) + unresolvable_part(cs, res)
}

/// A review document starts with `# Code review: ` and the repository's name.
pub proof fn lemma_doc_heading(
    name: Seq<char>,
    oids: Seq<String>,
    subjects: Seq<Option<String>>,
    cs: Seq<Comment>,
    res: Seq<Resolved>,
)
    ensures
        review_doc(name, oids, subjects, cs, res).take(("# Code review: "@ + name).len() as int)
            == "# Code review: "@ + name,
{
    let h = "# Code review: "@ + name;
    let d = review_doc(name, oids, subjects, cs, res);
    assert(d.take(h.len() as int) =~= h) by {
        assert forall|i: int| 0 <= i < h.len() implies d[i] == h[i] by {
            assert(header_part(name)[i] == h[i]);
        }
    }
}

/// Whether resolutions match their comments' shapes.
pub open spec fn resolutions_fit(cs: Seq<Comment>, res: Seq<Resolved>) -> bool {
    &&& cs.len() == res.len()
    &&& forall|i: int|
        0 <= i < res.len() ==> (is_anchored(#[trigger] res[i]) ==> cs[i].anchor is Some) && (
        is_commit_level(res[i]) ==> cs[i].commit_oid is Some)
}

fn push_short(out: &mut Vec<char>, oid: &str)
    ensures
        final(out)@ == old(out)@ + short_sha_of(oid@),
{
    let cs = chars_of(oid);
    let s = short_sha(&cs);
    push_all(out, &s);
}

fn push_subject(out: &mut Vec<char>, s: &Option<String>)
    ensures
        final(out)@ == old(out)@ + subject_text(*s),
{
    match s {
        Some(x) => push_str(out, x.as_str()),
        None => push_str(out, "(subject unavailable)"),
    }
}

fn push_commits_part(out: &mut Vec<char>, oids: &Vec<String>, subjects: &Vec<Option<String>>)
    requires
        oids@.len() == subjects@.len(),
    ensures
        final(out)@ == old(out)@ + commits_part(oids@, subjects@),
{
    if oids.len() == 0 {
        assert(old(out)@ + Seq::<char>::empty() =~= old(out)@);
        return ;
    }
    let ghost start = out@;
    push_str(out, "## Commits\n");
    push_str(out, "\n");
    let ghost mid = out@;
    for k in 0..oids.len()
        invariant
            oids@.len() == subjects@.len(),
            out@ == mid + commit_lines(oids@, subjects@, k as int),
    {
        let ghost before = out@;
        push_str(out, "- ");
        push_short(out, oids[k].as_str());
        push_str(out, " -- ");
        push_subject(out, &subjects[k]);
        push_str(out, "\n");
        assert(out@ =~= mid + commit_lines(oids@, subjects@, k + 1));
    }
    push_str(out, "\n");
    assert(out@ =~= start + commits_part(oids@, subjects@));
}

fn push_anchor_heading(out: &mut Vec<char>, a: &Anchor, prefix: &str)
    ensures
        final(out)@ == old(out)@ + anchor_heading(*a, prefix@),
{
    let ghost start = out@;
    push_str(out, prefix);
    push_str(out, a.file_path.as_str());
    push_str(out, ":L");
    push_dec(out, a.start_line);
    push_str(out, "-L");
    push_dec(out, a.end_line);
    push_str(out, " (");
    push_short(out, a.commit_oid.as_str());
    push_str(out, ")\n");
    assert(out@ =~= start + anchor_heading(*a, prefix@));
}

fn push_anchored_entry(out: &mut Vec<char>, c: &Comment, r: &Resolved)
    requires
        c.anchor is Some,
    ensures
        final(out)@ == old(out)@ + anchored_entry(*c, *r),
{
    let ghost start = out@;
    let a = c.anchor.as_ref().unwrap();
    push_anchor_heading(out, a, "#### ");
    push_str(out, "\n");
    let ghost mid = out@;
    match r {
        Resolved::Anchored { excerpt, info } => {
            emit_fence(out, excerpt.as_str(), info.as_str());
        },
        _ => {
            push_str(out, "[binary file, no excerpt]\n");
            push_str(out, "\n");
        },
    }
    push_ensure_nl(out, c.text.as_str());
    push_str(out, "\n");
    assert(out@ =~= start + anchored_entry(*c, *r));
}

fn push_group_heading(out: &mut Vec<char>, a: &Anchor)
    ensures
        final(out)@ == old(out)@ + group_heading(*a),
{
    let ghost start = out@;
    push_str(out, "### ");
    push_str(out, a.file_path.as_str());
    push_str(out, " (");
    push_short(out, a.commit_oid.as_str());
    push_str(out, ")\n");
    push_str(out, "\n");
    assert(out@ =~= start + group_heading(*a));
}

fn same_group_of(cs: &Vec<Comment>, i: usize, j: usize) -> (r: bool)
    requires
        i < cs@.len(),
        j < cs@.len(),
        cs@[i as int].anchor is Some,
        cs@[j as int].anchor is Some,
    ensures
        r == same_group(cs@, i as int, j as int),
{
    let a = cs[i].anchor.as_ref().unwrap();
    let b = cs[j].anchor.as_ref().unwrap();
    let f1 = chars_of(a.file_path.as_str());
    let f2 = chars_of(b.file_path.as_str());
    let o1 = chars_of(a.commit_oid.as_str());
    let o2 = chars_of(b.commit_oid.as_str());
    crate::text::chars_eq(&f1, &f2) && crate::text::chars_eq(&o1, &o2)
}

fn pick_indices(res: &Vec<Resolved>, which: u8) -> (r: Vec<usize>)
    requires
        which < 3,
    ensures
        r@.map_values(|u: usize| u as int) == (if which == 0 {
            pick(res@, |x: Resolved| is_anchored(x))
        } else if which == 1 {
            pick(res@, |x: Resolved| is_commit_level(x))
        } else {
            pick(res@, |x: Resolved| is_unresolvable(x))
        }),
        forall|k: int| 0 <= k < r@.len() ==> #[trigger] r@[k] < res@.len(),
{
    let ghost p: spec_fn(Resolved) -> bool = if which == 0 {
        |x: Resolved| is_anchored(x)
    } else if which == 1 {
        |x: Resolved| is_commit_level(x)
    } else {
        |x: Resolved| is_unresolvable(x)
    };
    let mut out: Vec<usize> = Vec::new();
    for i in 0..res.len()
        invariant
            which < 3,
            p == (if which == 0 {
                |x: Resolved| is_anchored(x)
            } else if which == 1 {
                |x: Resolved| is_commit_level(x)
            } else {
                |x: Resolved| is_unresolvable(x)
            }),
            out@.map_values(|u: usize| u as int) == pick(res@.take(i as int), p),
            forall|k: int| 0 <= k < out@.len() ==> #[trigger] out@[k] < i,
    {
        assert(res@.take(i + 1).drop_last() =~= res@.take(i as int));
        assert(res@.take(i + 1).last() == res@[i as int]);
        let hit = match &res[i] {
            Resolved::Anchored { .. } => which == 0,
            Resolved::Binary => which == 0,
            Resolved::CommitLevel { .. } => which == 1,
            Resolved::Unresolvable { .. } => which == 2,
        };
        assert(hit == p(res@[i as int]));
        if hit {
            let ghost ov = out@.map_values(|u: usize| u as int);
            out.push(i);
            assert(out@.map_values(|u: usize| u as int) =~= ov.push(i as int));
        }
    }
    assert(res@.take(res@.len() as int) =~= res@);
    out
}

fn push_anchored_part(out: &mut Vec<char>, cs: &Vec<Comment>, res: &Vec<Resolved>)
    requires
        resolutions_fit(cs@, res@),
    ensures
        final(out)@ == old(out)@ + anchored_part(cs@, res@),
{
    let idx = pick_indices(res, 0);
    proof {
        let iv = idx@.map_values(|u: usize| u as int);
        lemma_pick(res@, |x: Resolved| is_anchored(x));
        assert forall|k: int| 0 <= k < idx@.len() implies #[trigger] idx@[k] < cs@.len() && cs@[idx@[k] as int].anchor is Some by {
            assert(iv[k] == idx@[k] as int);
            assert(is_anchored(res@[idx@[k] as int]));
        }
    }
    let sorted = sort_indices(cs, &idx);
    let ghost sv = sorted@.map_values(|u: usize| u as int);
    if sorted.len() == 0 {
        assert(old(out)@ + Seq::<char>::empty() =~= old(out)@);
        return ;
    }
    let ghost start = out@;
    push_str(out, "## Anchored Comments\n");
    push_str(out, "\n");
    let ghost mid = out@;
    for k in 0..sorted.len()
        invariant
            resolutions_fit(cs@, res@),
            sv == sorted@.map_values(|u: usize| u as int),
            forall|q: int| 0 <= q < sorted@.len() ==> #[trigger] sorted@[q] < cs@.len() && cs@[sorted@[q] as int].anchor is Some,
            out@ == mid + anchored_lines(cs@, res@, sv, k as int),
    {
        let i = sorted[k];
        let ghost before = out@;
        if k == 0 || !same_group_of(cs, sorted[k - 1], i) {
            push_group_heading(out, cs[i].anchor.as_ref().unwrap());
        }
        let ghost mid2 = out@;
        push_anchored_entry(out, &cs[i], &res[i]);
        assert(out@ =~= mid + anchored_lines(cs@, res@, sv, k + 1));
    }
    assert(out@ =~= start + anchored_part(cs@, res@));
}

fn push_commit_level_entry(out: &mut Vec<char>, c: &Comment, r: &Resolved)
    requires
        c.commit_oid is Some,
        r is CommitLevel,
    ensures
        final(out)@ == old(out)@ + commit_level_entry(*c, *r),
{
    let ghost start = out@;
    push_str(out, "### ");
    push_short(out, c.commit_oid.as_ref().unwrap().as_str());
    push_str(out, " -- ");
    match r {
        Resolved::CommitLevel { subject } => push_subject(out, subject),
        _ => {},
    }
    push_str(out, "\n");
    push_str(out, "\n");
    push_ensure_nl(out, c.text.as_str());
    push_str(out, "\n");
    assert(out@ =~= start + commit_level_entry(*c, *r));
}

fn push_commit_level_part(out: &mut Vec<char>, cs: &Vec<Comment>, res: &Vec<Resolved>)
    requires
        resolutions_fit(cs@, res@),
    ensures
        final(out)@ == old(out)@ + commit_level_part(cs@, res@),
{
    let idx = pick_indices(res, 1);
    let ghost iv = idx@.map_values(|u: usize| u as int);
    let ghost f = |c: Comment, r: Resolved| commit_level_entry(c, r);
    if idx.len() == 0 {
        assert(old(out)@ + Seq::<char>::empty() =~= old(out)@);
        return ;
    }
    let ghost start = out@;
    push_str(out, "## Commit-level Comments\n");
    push_str(out, "\n");
    let ghost mid = out@;
    for k in 0..idx.len()
        invariant
            resolutions_fit(cs@, res@),
            iv == idx@.map_values(|u: usize| u as int),
            iv == pick(res@, |x: Resolved| is_commit_level(x)),
            forall|q: int| 0 <= q < idx@.len() ==> #[trigger] idx@[q] < res@.len(),
            f == (|c: Comment, r: Resolved| commit_level_entry(c, r)),
            out@ == mid + entries(cs@, res@, iv, k as int, f),
    {
        let i = idx[k];
        proof {
            assert(iv[k as int] == i as int);
            lemma_pick(res@, |x: Resolved| is_commit_level(x));
            assert(is_commit_level(res@[i as int]));
        }
        push_commit_level_entry(out, &cs[i], &res[i]);
        assert(out@ =~= mid + entries(cs@, res@, iv, k + 1, f));
    }
    assert(out@ =~= start + commit_level_part(cs@, res@));
}

pub proof fn lemma_pick(res: Seq<Resolved>, p: spec_fn(Resolved) -> bool)
    ensures
        forall|k: int| 0 <= k < pick(res, p).len() ==> 0 <= #[trigger] pick(res, p)[k] < res.len() && p(res[pick(res, p)[k]]),
    decreases res.len(),
{
    if res.len() > 0 {
        lemma_pick(res.drop_last(), p);
        assert forall|k: int| 0 <= k < pick(res, p).len() implies 0 <= #[trigger] pick(res, p)[k] < res.len() && p(res[pick(res, p)[k]]) by {
            if k < pick(res.drop_last(), p).len() {
                assert(res.drop_last()[pick(res.drop_last(), p)[k]] == res[pick(res.drop_last(), p)[k]]);
            }
        }
    }
}

fn push_unresolvable_entry(out: &mut Vec<char>, c: &Comment, r: &Resolved)
    requires
        r is Unresolvable,
    ensures
        final(out)@ == old(out)@ + unresolvable_entry(*c, *r),
{
    let ghost start = out@;
    match &c.anchor {
        Some(a) => push_anchor_heading(out, a, "### "),
        None => match &c.commit_oid {
            Some(o) => {
                push_str(out, "### Commit-level note (");
                push_short(out, o.as_str());
                push_str(out, ")\n");
            },
            None => push_str(out, "### Orphan note\n"),
        },
    }
    push_str(out, "\n");
    match r {
        Resolved::Unresolvable { phrase } => push_str(out, phrase.as_str()),
        _ => {},
    }
    push_str(out, ".\n");
    push_str(out, "\n");
    let ghost mid = out@;
    match (&c.anchor, &c.cached_excerpt) {
        (Some(a), Some(x)) => {
            push_str(out, "Anchor no longer resolves; excerpt is the cached snapshot from attach time.\n");
            push_str(out, "\n");
            let info = match a.source {
                Source::Diff => "diff",
                Source::FullFile => fence_language(a.file_path.as_str()),
            };
            emit_fence(out, x.as_str(), info);
        },
        _ => {},
    }
    assert(out@ =~= mid + cached_part(*c));
    push_ensure_nl(out, c.text.as_str());
    push_str(out, "\n");
    assert(out@ =~= start + unresolvable_entry(*c, *r));
}

fn push_unresolvable_part(out: &mut Vec<char>, cs: &Vec<Comment>, res: &Vec<Resolved>)
    requires
        resolutions_fit(cs@, res@),
    ensures
        final(out)@ == old(out)@ + unresolvable_part(cs@, res@),
{
    let idx = pick_indices(res, 2);
    let ghost iv = idx@.map_values(|u: usize| u as int);
    let ghost f = |c: Comment, r: Resolved| unresolvable_entry(c, r);
    if idx.len() == 0 {
        assert(old(out)@ + Seq::<char>::empty() =~= old(out)@);
        return ;
    }
    let ghost start = out@;
    push_str(out, "## Unresolvable Anchors\n");
    push_str(out, "\n");
    let ghost mid = out@;
    for k in 0..idx.len()
        invariant
            resolutions_fit(cs@, res@),
            iv == idx@.map_values(|u: usize| u as int),
            iv == pick(res@, |x: Resolved| is_unresolvable(x)),
            forall|q: int| 0 <= q < idx@.len() ==> #[trigger] idx@[q] < res@.len(),
            f == (|c: Comment, r: Resolved| unresolvable_entry(c, r)),
            out@ == mid + entries(cs@, res@, iv, k as int, f),
    {
        let i = idx[k];
        proof {
            assert(iv[k as int] == i as int);
            lemma_pick(res@, |x: Resolved| is_unresolvable(x));
            assert(is_unresolvable(res@[i as int]));
        }
        push_unresolvable_entry(out, &cs[i], &res[i]);
        assert(out@ =~= mid + entries(cs@, res@, iv, k + 1, f));
    }
    assert(out@ =~= start + unresolvable_part(cs@, res@));
}

/// Renders a review session as one markdown document: title and framing, the
/// reviewed commits, anchored comments grouped by (file, commit) and ordered
/// by start line, commit-level comments, then comments whose anchors no longer
/// resolve.
pub fn render_markdown(
    session: &ReviewSession,
    repo_name: &str,
    commit_subjects: &Vec<Option<String>>,
    resolved: &Vec<Resolved>,
) -> (doc: String)
    requires
        commit_subjects@.len() == session.commits@.len(),
        resolutions_fit(session.comments@, resolved@),
    ensures
        doc@ == review_doc(
            repo_name@,
            session.commits@,
            commit_subjects@,
            session.comments@,
            resolved@,
        ),
{
    let mut out: Vec<char> = Vec::new();
    push_str(&mut out, "# Code review: ");
    push_str(&mut out, repo_name);
    push_str(&mut out, "\n");
    push_str(&mut out, "\n");
    push_str(&mut out, "This is a human-authored code review with anchored excerpts. Address each comment in the context of the excerpt it sits next to.");
    push_str(&mut out, "\n");
    push_str(&mut out, "\n");
    assert(out@ =~= header_part(repo_name@));
    push_commits_part(&mut out, &session.commits, commit_subjects);
    push_anchored_part(&mut out, &session.comments, resolved);
    push_commit_level_part(&mut out, &session.comments, resolved);
    push_unresolvable_part(&mut out, &session.comments, resolved);
    crate::text::string_of(&out)
}


// ---------------------------------------------------------------------------
// Every comment lands in the document
// ---------------------------------------------------------------------------

/// `small` occurs in `big` as one contiguous piece.
pub open spec fn appears_in(small: Seq<char>, big: Seq<char>) -> bool {
    exists|p: int| 0 <= p <= big.len() - small.len() && #[trigger] big.subrange(p, p + small.len()) == small
}

proof fn lemma_appears_self(small: Seq<char>)
    ensures
        appears_in(small, small),
{
    let p: int = 0;
    assert(small.subrange(p, p + small.len()) =~= small);
}

proof fn lemma_appears_wrap(small: Seq<char>, x: Seq<char>, y: Seq<char>, z: Seq<char>)
    requires
        appears_in(small, x),
    ensures
        appears_in(small, y + x + z),
{
    let p = choose|p: int| 0 <= p <= x.len() - small.len() && #[trigger] x.subrange(p, p + small.len()) == small;
    let big = y + x + z;
    let q = y.len() + p;
    assert(big.subrange(q, q + small.len()) =~= x.subrange(p, p + small.len()));
}

proof fn lemma_appears_trans(s: Seq<char>, x: Seq<char>, y: Seq<char>)
    requires
        appears_in(s, x),
        appears_in(x, y),
    ensures
        appears_in(s, y),
{
    let p = choose|p: int| 0 <= p <= x.len() - s.len() && #[trigger] x.subrange(p, p + s.len()) == s;
    let q = choose|q: int| 0 <= q <= y.len() - x.len() && #[trigger] y.subrange(q, q + x.len()) == x;
    assert(y.subrange(q + p, q + p + s.len()) =~= x.subrange(p, p + s.len()));
}

proof fn lemma_pick_complete(res: Seq<Resolved>, p: spec_fn(Resolved) -> bool, i: int)
    requires
        0 <= i < res.len(),
        p(res[i]),
    ensures
        pick(res, p).contains(i),
    decreases res.len(),
{
    if i == res.len() - 1 {
        assert(pick(res, p).last() == i);
    } else {
        lemma_pick_complete(res.drop_last(), p, i);
        let k = choose|k: int| 0 <= k < pick(res.drop_last(), p).len() && pick(res.drop_last(), p)[k] == i;
        assert(pick(res, p)[k] == i);
    }
}

proof fn lemma_insert_sorted_keeps(cs: Seq<Comment>, sorted: Seq<int>, x: int)
    ensures
        insert_sorted(cs, sorted, x).contains(x),
        forall|e: int| sorted.contains(e) ==> #[trigger] insert_sorted(cs, sorted, x).contains(e),
    decreases sorted.len(),
{
    let r = insert_sorted(cs, sorted, x);
    if sorted.len() == 0 {
        assert(r[0] == x);
    } else if key_le(cs, sorted.last(), x) {
        assert(r.last() == x);
        assert forall|e: int| sorted.contains(e) implies #[trigger] r.contains(e) by {
            let k = choose|k: int| 0 <= k < sorted.len() && sorted[k] == e;
            assert(r[k] == e);
        }
    } else {
        let d = sorted.drop_last();
        lemma_insert_sorted_keeps(cs, d, x);
        let inner = insert_sorted(cs, d, x);
        let k0 = choose|k: int| 0 <= k < inner.len() && inner[k] == x;
        assert(r[k0] == x);
        assert forall|e: int| sorted.contains(e) implies #[trigger] r.contains(e) by {
            let k = choose|k: int| 0 <= k < sorted.len() && sorted[k] == e;
            if k == sorted.len() - 1 {
                assert(r.last() == e);
            } else {
                assert(d[k] == e);
                assert(d.contains(e));
                assert(inner.contains(e));
                let m = choose|m: int| 0 <= m < inner.len() && inner[m] == e;
                assert(r[m] == e);
            }
        }
    }
}

proof fn lemma_sort_keeps(cs: Seq<Comment>, s: Seq<int>)
    ensures
        forall|e: int| s.contains(e) ==> #[trigger] sort_anchored(cs, s).contains(e),
    decreases s.len(),
{
    if s.len() > 0 {
        let d = s.drop_last();
        lemma_sort_keeps(cs, d);
        lemma_insert_sorted_keeps(cs, sort_anchored(cs, d), s.last());
        assert forall|e: int| s.contains(e) implies #[trigger] sort_anchored(cs, s).contains(e) by {
            let k = choose|k: int| 0 <= k < s.len() && s[k] == e;
            if k < s.len() - 1 {
                assert(d[k] == e);
                assert(d.contains(e));
            }
        }
    }
}

proof fn lemma_entries_contain(
    cs: Seq<Comment>,
    res: Seq<Resolved>,
    idx: Seq<int>,
    k: int,
    f: spec_fn(Comment, Resolved) -> Seq<char>,
    j: int,
)
    requires
        0 <= j < k <= idx.len(),
    ensures
        appears_in(f(cs[idx[j]], res[idx[j]]), entries(cs, res, idx, k, f)),
    decreases k,
{
    let e = f(cs[idx[k - 1]], res[idx[k - 1]]);
    if j == k - 1 {
        lemma_appears_self(e);
        lemma_appears_wrap(e, e, entries(cs, res, idx, k - 1, f), Seq::empty());
        assert(entries(cs, res, idx, k - 1, f) + e + Seq::<char>::empty() =~= entries(cs, res, idx, k, f));
    } else {
        lemma_entries_contain(cs, res, idx, k - 1, f, j);
        lemma_appears_wrap(f(cs[idx[j]], res[idx[j]]), entries(cs, res, idx, k - 1, f), Seq::empty(), e);
        assert(Seq::<char>::empty() + entries(cs, res, idx, k - 1, f) + e =~= entries(cs, res, idx, k, f));
    }
}

proof fn lemma_anchored_lines_contain(cs: Seq<Comment>, res: Seq<Resolved>, sorted: Seq<int>, k: int, j: int)
    requires
        0 <= j < k <= sorted.len(),
    ensures
        appears_in(anchored_entry(cs[sorted[j]], res[sorted[j]]), anchored_lines(cs, res, sorted, k)),
    decreases k,
{
    let i = sorted[k - 1];
    let head = if k - 1 == 0 || !same_group(cs, sorted[k - 2], i) {
        group_heading(cs[i].anchor->0)
    } else {
        Seq::<char>::empty()
    };
    let e = anchored_entry(cs[i], res[i]);
    let prev = anchored_lines(cs, res, sorted, k - 1);
    assert(anchored_lines(cs, res, sorted, k) == prev + head + e);
    if j == k - 1 {
        lemma_appears_self(e);
        lemma_appears_wrap(e, e, prev + head, Seq::empty());
        assert((prev + head) + e + Seq::<char>::empty() =~= prev + head + e);
    } else {
        lemma_anchored_lines_contain(cs, res, sorted, k - 1, j);
        lemma_appears_wrap(anchored_entry(cs[sorted[j]], res[sorted[j]]), prev, Seq::empty(), head + e);
        assert(Seq::<char>::empty() + prev + (head + e) =~= prev + head + e);
    }
}

proof fn lemma_anchored_rendered(cs: Seq<Comment>, res: Seq<Resolved>, i: int)
    requires
        0 <= i < cs.len() == res.len(),
        is_anchored(res[i]),
    ensures
        appears_in(anchored_entry(cs[i], res[i]), anchored_part(cs, res)),
        appears_in(ensure_nl(cs[i].text@), anchored_part(cs, res)),
{
    let c = cs[i];
    let r = res[i];
    let t = ensure_nl(c.text@);
    let ap = anchored_part(cs, res);
    let pa = pick(res, |x: Resolved| is_anchored(x));
    lemma_pick_complete(res, |x: Resolved| is_anchored(x), i);
    lemma_sort_keeps(cs, pa);
    let sorted = sort_anchored(cs, pa);
    assert(sorted.contains(i));
    let j = choose|j: int| 0 <= j < sorted.len() && sorted[j] == i;
    let lines = anchored_lines(cs, res, sorted, sorted.len() as int);
    lemma_anchored_lines_contain(cs, res, sorted, sorted.len() as int, j);
    let pre = "## Anchored Comments\n"@ + "\n"@;
    lemma_appears_wrap(anchored_entry(c, r), lines, pre, Seq::empty());
    assert(pre + lines + Seq::<char>::empty() =~= ap);
    let e = anchored_entry(c, r);
    let body = match r {
        Resolved::Anchored { excerpt, info } => fence_block(excerpt@, info@),
        _ => "[binary file, no excerpt]\n"@ + "\n"@,
    };
    let before = anchor_heading(c.anchor->0, "#### "@) + "\n"@ + body;
    lemma_appears_self(t);
    lemma_appears_wrap(t, t, before, "\n"@);
    assert(before + t + "\n"@ =~= e);
    lemma_appears_trans(t, e, ap);
}

proof fn lemma_commit_level_rendered(cs: Seq<Comment>, res: Seq<Resolved>, i: int)
    requires
        0 <= i < cs.len() == res.len(),
        is_commit_level(res[i]),
    ensures
        appears_in(commit_level_entry(cs[i], res[i]), commit_level_part(cs, res)),
        appears_in(ensure_nl(cs[i].text@), commit_level_part(cs, res)),
{
    let c = cs[i];
    let r = res[i];
    let t = ensure_nl(c.text@);
    let cp = commit_level_part(cs, res);
    let f = |c: Comment, r: Resolved| commit_level_entry(c, r);
    let idx = pick(res, |x: Resolved| is_commit_level(x));
    lemma_pick_complete(res, |x: Resolved| is_commit_level(x), i);
    let j = choose|j: int| 0 <= j < idx.len() && idx[j] == i;
    lemma_entries_contain(cs, res, idx, idx.len() as int, f, j);
    let pre = "## Commit-level Comments\n"@ + "\n"@;
    let es = entries(cs, res, idx, idx.len() as int, f);
    lemma_appears_wrap(commit_level_entry(c, r), es, pre, Seq::empty());
    assert(pre + es + Seq::<char>::empty() =~= cp);
    let e = commit_level_entry(c, r);
    let before = "### "@ + short_sha_of(c.commit_oid->0@) + " -- "@ + subject_text(r->subject) + "\n"@ + "\n"@;
    lemma_appears_self(t);
    lemma_appears_wrap(t, t, before, "\n"@);
    assert(before + t + "\n"@ =~= e);
    lemma_appears_trans(t, e, cp);
}

proof fn lemma_unresolvable_rendered(cs: Seq<Comment>, res: Seq<Resolved>, i: int)
    requires
        0 <= i < cs.len() == res.len(),
        is_unresolvable(res[i]),
    ensures
        appears_in(unresolvable_entry(cs[i], res[i]), unresolvable_part(cs, res)),
        appears_in(ensure_nl(cs[i].text@), unresolvable_part(cs, res)),
{
    let c = cs[i];
    let r = res[i];
    let t = ensure_nl(c.text@);
    let up = unresolvable_part(cs, res);
    let f = |c: Comment, r: Resolved| unresolvable_entry(c, r);
    let idx = pick(res, |x: Resolved| is_unresolvable(x));
    lemma_pick_complete(res, |x: Resolved| is_unresolvable(x), i);
    let j = choose|j: int| 0 <= j < idx.len() && idx[j] == i;
    lemma_entries_contain(cs, res, idx, idx.len() as int, f, j);
    let pre = "## Unresolvable Anchors\n"@ + "\n"@;
    let es = entries(cs, res, idx, idx.len() as int, f);
    lemma_appears_wrap(unresolvable_entry(c, r), es, pre, Seq::empty());
    assert(pre + es + Seq::<char>::empty() =~= up);
    let e = unresolvable_entry(c, r);
    let before = unresolvable_heading(c) + "\n"@ + r->phrase@ + ".\n"@ + "\n"@ + cached_part(c);
    lemma_appears_self(t);
    lemma_appears_wrap(t, t, before, "\n"@);
    assert(before + t + "\n"@ =~= e);
    lemma_appears_trans(t, e, up);
}

/// Every comment of a session is rendered, in the section its resolution
/// calls for: an anchored entry (excerpt or binary placeholder) among the
/// anchored comments, a commit-level entry among the commit-level comments,
/// or an entry among the unresolvable anchors; and its text, ending in a
/// newline, appears in the document.
pub proof fn lemma_every_comment_rendered(
    name: Seq<char>,
    oids: Seq<String>,
    subjects: Seq<Option<String>>,
    cs: Seq<Comment>,
    res: Seq<Resolved>,
    i: int,
)
    requires
        resolutions_fit(cs, res),
        0 <= i < cs.len(),
    ensures
        is_anchored(res[i]) ==> appears_in(anchored_entry(cs[i], res[i]), anchored_part(cs, res)),
        is_commit_level(res[i]) ==> appears_in(commit_level_entry(cs[i], res[i]), commit_level_part(cs, res)),
        is_unresolvable(res[i]) ==> appears_in(unresolvable_entry(cs[i], res[i]), unresolvable_part(cs, res)),
        appears_in(ensure_nl(cs[i].text@), review_doc(name, oids, subjects, cs, res)),
{
    let t = ensure_nl(cs[i].text@);
    let head = header_part(name) + commits_part(oids, subjects);
    let ap = anchored_part(cs, res);
    let cp = commit_level_part(cs, res);
    let up = unresolvable_part(cs, res);
    assert(review_doc(name, oids, subjects, cs, res) == head + ap + cp + up);
    if is_anchored(res[i]) {
        lemma_anchored_rendered(cs, res, i);
        lemma_appears_wrap(t, ap, head, cp + up);
        assert(head + ap + (cp + up) =~= head + ap + cp + up);
    } else if is_commit_level(res[i]) {
        lemma_commit_level_rendered(cs, res, i);
        lemma_appears_wrap(t, cp, head + ap, up);
        assert((head + ap) + cp + up =~= head + ap + cp + up);
    } else {
        assert(is_unresolvable(res[i]));
        lemma_unresolvable_rendered(cs, res, i);
        lemma_appears_wrap(t, up, head + ap + cp, Seq::empty());
        assert((head + ap + cp) + up + Seq::<char>::empty() =~= head + ap + cp + up);
    }
}

} // verus!
