//! Plain data exchanged with the user interface, and their models.
//!
//! Every field is owned (`String`, `Vec`, integers, `Option`), so values can be
//! cached and sent across threads.
use vstd::prelude::*;

use crate::text::{chars_of, split, split_char, string_of, trim_end_char, views};

verus! {

// ---------------------------------------------------------------------------
// Repository identity
// ---------------------------------------------------------------------------

/// Where a repository lives: on the host, or inside a WSL distribution.
#[derive(Debug, Clone)]
pub enum RepoLocator {
    Local { path: String },
    Wsl { distro: String, linux_path: String },
}

/// A path with its trailing slashes removed; a path made only of slashes is
/// kept as it is.
pub open spec fn normalized_repo_path(path: Seq<char>) -> Seq<char> {
    let t = trim_end_char(path, '/');
    if t.len() == 0 {
        path
    } else {
        t
    }
}

proof fn lemma_trim_end_char_last(s: Seq<char>, c: char)
    ensures
        trim_end_char(s, c).len() > 0 ==> trim_end_char(s, c).last() != c,
        trim_end_char(trim_end_char(s, c), c) == trim_end_char(s, c),
    decreases s.len(),
{
    if s.len() > 0 && s.last() == c {
        lemma_trim_end_char_last(s.drop_last(), c);
    }
}

/// Trailing slashes do not change a repository's identity: a path with one
/// more trailing `/` has the same normalised form (unless the path is made of
/// slashes alone), and normalising twice changes nothing.
pub proof fn lemma_trailing_slash_same_id(path: Seq<char>)
    ensures
        trim_end_char(path, '/').len() > 0 ==> normalized_repo_path(path + seq!['/'])
            == normalized_repo_path(path),
        normalized_repo_path(normalized_repo_path(path)) == normalized_repo_path(path),
{
    assert((path + seq!['/']).drop_last() =~= path);
    lemma_trim_end_char_last(path, '/');
    if trim_end_char(path, '/').len() == 0 {
        lemma_trim_end_char_last(path, '/');
    }
}

/// The backend-aware identity of a locator.
pub open spec fn locator_id(l: RepoLocator) -> Seq<char> {
    match l {
        RepoLocator::Local { path } => "local:"@ + normalized_repo_path(path@),
        RepoLocator::Wsl { distro, linux_path } => "wsl:"@ + distro@ + ":"@
            + normalized_repo_path(linux_path@),
    }
}

fn normalize_repo_path_for_id(path: &str) -> (r: Vec<char>)
    ensures
        r@ == normalized_repo_path(path@),
{
    let cs = chars_of(path);
    let mut k = cs.len();
    assert(cs@.take(k as int) =~= cs@);
    while k > 0 && cs[k - 1] == '/'
        invariant
            k <= cs@.len(),
            trim_end_char(cs@.take(k as int), '/') == trim_end_char(cs@, '/'),
        decreases k,
    {
        assert(cs@.take(k as int).drop_last() =~= cs@.take(k - 1));
        k = k - 1;
    }
    assert(trim_end_char(cs@.take(k as int), '/') == cs@.take(k as int));
    if k == 0 {
        cs
    } else {
        crate::text::slice_of(&cs, 0, k)
    }
}

impl RepoLocator {
    /// `local:<path>` or `wsl:<distro>:<linux_path>`, trailing slashes removed.
    pub fn stable_id(&self) -> (r: String)
        ensures
            r@ == locator_id(*self),
    {
        match self {
            RepoLocator::Local { path } => {
                let mut v = chars_of("local:");
                let p = normalize_repo_path_for_id(path.as_str());
                crate::text::push_all(&mut v, &p);
                string_of(&v)
            },
            RepoLocator::Wsl { distro, linux_path } => {
                let mut v = chars_of("wsl:");
                crate::text::push_str(&mut v, distro.as_str());
                crate::text::push_str(&mut v, ":");
                let p = normalize_repo_path_for_id(linux_path.as_str());
                crate::text::push_all(&mut v, &p);
                string_of(&v)
            },
        }
    }
}

/// A repository as the application knows it.
#[derive(Debug, Clone)]
pub struct RepoDescriptor {
    pub id: String,
    pub display_name: String,
    pub display_path: String,
    pub locator: RepoLocator,
}

/// The last component of a path that names something (`Path::file_name`):
/// empty and `.` components are skipped; `..` names nothing.
pub open spec fn last_named(pieces: Seq<Seq<char>>) -> Option<Seq<char>>
    decreases pieces.len(),
{
    if pieces.len() == 0 {
        None
    } else {
        let l = pieces.last();
        if l.len() == 0 || l == "."@ {
            last_named(pieces.drop_last())
        } else if l == ".."@ {
            None
        } else {
            Some(l)
        }
    }
}

/// `Path::new(path).file_name()` for a `/`-separated path.
pub open spec fn file_name(path: Seq<char>) -> Option<Seq<char>> {
    last_named(split(path, '/'))
}

/// `Path::file_name` of a `/`-separated path.
pub fn file_name_of(path: &[char]) -> (r: Option<Vec<char>>)
    ensures
        match r {
            Some(v) => file_name(path@) == Some(v@),
            None => file_name(path@) is None,
        },
{
    let pieces = split_char(path, '/');
    let dot = chars_of(".");
    let dotdot = chars_of("..");
    proof {
        reveal_strlit(".");
        reveal_strlit("..");
    }
    let mut k = pieces.len();
    assert(views(pieces@).take(k as int) =~= views(pieces@));
    while k > 0
        invariant
            k <= pieces@.len(),
            views(pieces@) == split(path@, '/'),
            dot@ == "."@,
            dotdot@ == ".."@,
            last_named(views(pieces@).take(k as int)) == last_named(views(pieces@)),
        decreases k,
    {
        let p = &pieces[k - 1];
        let ghost t = views(pieces@).take(k as int);
        assert(t.last() == p@);
        assert(t.drop_last() =~= views(pieces@).take(k - 1));
        if p.len() == 0 || crate::text::chars_eq(p, &dot) {
            k = k - 1;
        } else if crate::text::chars_eq(p, &dotdot) {
            return None;
        } else {
            return Some(crate::text::copy_chars(p));
        }
    }
    assert(views(pieces@).take(0) =~= Seq::<Seq<char>>::empty());
    None
}

/// The last index of `c` in `s`.
pub open spec fn last_index(s: Seq<char>, c: char) -> Option<int>
    decreases s.len(),
{
    if s.len() == 0 {
        None
    } else if s.last() == c {
        Some(s.len() - 1)
    } else {
        last_index(s.drop_last(), c)
    }
}

pub proof fn lemma_last_index(s: Seq<char>, c: char)
    ensures
        last_index(s, c) matches Some(i) ==> 0 <= i < s.len() && s[i] == c,
    decreases s.len(),
{
    if s.len() > 0 && s.last() != c {
        lemma_last_index(s.drop_last(), c);
    }
}

/// `Path::extension` for a `/`-separated path: the text after the last `.`
/// of the file name, unless that `.` starts the name.
pub open spec fn extension(path: Seq<char>) -> Option<Seq<char>> {
    match file_name(path) {
        None => None,
        Some(name) => match last_index(name, '.') {
            None => None,
            Some(i) => if i == 0 {
                None
            } else {
                Some(name.skip(i + 1))
            },
        },
    }
}

/// `Path::extension` of a `/`-separated path.
pub fn extension_of(path: &[char]) -> (r: Option<Vec<char>>)
    ensures
        match r {
            Some(v) => extension(path@) == Some(v@),
            None => extension(path@) is None,
        },
{
    match file_name_of(path) {
        None => None,
        Some(name) => {
            let mut k = name.len();
            assert(name@.take(k as int) =~= name@);
            while k > 0 && name[k - 1] != '.'
                invariant
                    k <= name@.len(),
                    last_index(name@.take(k as int), '.') == last_index(name@, '.'),
                decreases k,
            {
                assert(name@.take(k as int).drop_last() =~= name@.take(k - 1));
                k = k - 1;
            }
            if k == 0 {
                None
            } else {
                assert(name@.take(k as int).last() == name@[k - 1]);
                if k - 1 == 0 {
                    None
                } else {
                    let e = crate::text::slice_of(&name, k, name.len());
                    assert(e@ =~= name@.skip(k as int));
                    Some(e)
                }
            }
        },
    }
}

impl RepoLocator {
    /// A copy of the locator.
    pub fn copy(&self) -> (r: RepoLocator)
        ensures
            r == *self,
    {
        match self {
            RepoLocator::Local { path } => RepoLocator::Local { path: path.clone() },
            RepoLocator::Wsl { distro, linux_path } => RepoLocator::Wsl {
                distro: distro.clone(),
                linux_path: linux_path.clone(),
            },
        }
    }
}

impl RepoDescriptor {
    /// A copy of the descriptor.
    pub fn copy(&self) -> (r: RepoDescriptor)
        ensures
            r == *self,
    {
        RepoDescriptor {
            id: self.id.clone(),
            display_name: self.display_name.clone(),
            display_path: self.display_path.clone(),
            locator: self.locator.copy(),
        }
    }
}

impl RepoDescriptor {
    /// A descriptor for a repository on the host: the display name is the
    /// path's file name (the whole path when it has none).
    pub fn local(path: String) -> (d: RepoDescriptor)
        ensures
            d.locator == (RepoLocator::Local { path }),
            d.id@ == locator_id(d.locator),
            d.display_path == path,
            d.display_name@ == (match file_name(path@) {
                Some(n) => n,
                None => path@,
            }),
    {
        let cs = chars_of(path.as_str());
        let display_name = match file_name_of(&cs) {
            Some(n) => string_of(&n),
            None => path.clone(),
        };
        let locator = RepoLocator::Local { path: path.clone() };
        let id = locator.stable_id();
        RepoDescriptor { id, display_name, display_path: path, locator }
    }
}

// ---------------------------------------------------------------------------
// Commit graph
// ---------------------------------------------------------------------------

#[derive(Debug, Clone, Copy, PartialEq, Eq, Structural)]
pub enum EdgeType {
    Straight,
    MergeLeft,
    MergeRight,
    ForkLeft,
    ForkRight,
}

#[derive(Debug, Clone)]
pub struct GraphEdge {
    pub from_column: usize,
    pub to_column: usize,
    pub edge_type: EdgeType,
    pub color_index: usize,
    pub dashed: bool,
}

/// Model of an edge: `(from_column, to_column, edge_type, color_index, dashed)`.
pub type EdgeRow = (usize, usize, EdgeType, usize, bool);

impl View for GraphEdge {
    type V = EdgeRow;

    open spec fn view(&self) -> EdgeRow {
        (self.from_column, self.to_column, self.edge_type, self.color_index, self.dashed)
    }
}

pub open spec fn edge_views(v: Seq<GraphEdge>) -> Seq<EdgeRow> {
    v.map_values(|e: GraphEdge| e@)
}

/// The views of a list of strings.
pub open spec fn string_views(v: Seq<String>) -> Seq<Seq<char>> {
    v.map_values(|s: String| s@)
}

#[derive(Debug, Clone, Copy, PartialEq, Eq, Structural)]
pub enum RefType {
    LocalBranch,
    RemoteBranch,
    Tag,
    Stash,
}

#[derive(Debug, Clone)]
pub struct RefLabel {
    pub name: String,
    pub short_name: String,
    pub ref_type: RefType,
    pub is_head: bool,
    pub color_index: usize,
}

/// Model of a ref label: `(name, short_name, ref_type, is_head, color_index)`.
pub type LabelView = (Seq<char>, Seq<char>, RefType, bool, usize);

impl View for RefLabel {
    type V = LabelView;

    open spec fn view(&self) -> LabelView {
        (self.name@, self.short_name@, self.ref_type, self.is_head, self.color_index)
    }
}

pub open spec fn label_views(v: Seq<RefLabel>) -> Seq<LabelView> {
    v.map_values(|l: RefLabel| l@)
}

impl RefLabel {
    /// A copy of the label.
    pub fn copy(&self) -> (r: RefLabel)
        ensures
            r@ == self@,
    {
        RefLabel {
            name: self.name.clone(),
            short_name: self.short_name.clone(),
            ref_type: self.ref_type,
            is_head: self.is_head,
            color_index: self.color_index,
        }
    }
}

#[derive(Debug, Clone)]
pub struct StashEntry {
    pub index: usize,
    pub name: String,
    pub short_name: String,
    pub oid: String,
    pub parent_oid: Option<String>,
}

#[derive(Debug, Clone)]
pub struct GraphCommit {
    pub oid: String,
    pub short_oid: String,
    pub summary: String,
    pub body: Option<String>,
    pub author_name: String,
    pub author_email: String,
    pub author_timestamp: i64,
    pub parent_oids: Vec<String>,
    pub column: usize,
    pub color_index: usize,
    pub edges: Vec<GraphEdge>,
    pub refs: Vec<RefLabel>,
    pub is_head: bool,
    pub is_merge: bool,
    pub is_branch_tip: bool,
    pub is_stash: bool,
}

#[derive(Debug, Clone)]
pub struct GraphResult {
    pub commits: Vec<GraphCommit>,
    pub max_columns: usize,
}

#[derive(Debug, Clone, Copy, PartialEq, Eq, Structural)]
pub enum MatchType {
    Sha,
    Message,
    Ref,
    Author,
}

#[derive(Debug, Clone)]
pub struct SearchResult {
    pub oid: String,
    pub match_types: Vec<MatchType>,
}

#[derive(Debug, Clone)]
pub struct BranchInfo {
    pub name: String,
    pub is_head: bool,
    pub upstream: Option<String>,
    pub ahead: usize,
    pub behind: usize,
    pub last_commit_timestamp: i64,
}

#[derive(Debug, Clone)]
pub struct RefsResponse {
    pub local: Vec<BranchInfo>,
    pub remote: Vec<BranchInfo>,
    pub tags: Vec<RefLabel>,
    pub stashes: Vec<StashEntry>,
}

// ---------------------------------------------------------------------------
// Working tree status
// ---------------------------------------------------------------------------

#[derive(Debug, Clone, Copy, PartialEq, Eq, Structural)]
pub enum FileStatusType {
    New,
    Modified,
    Deleted,
    Renamed,
    Typechange,
    Conflicted,
}

#[derive(Debug, Clone)]
pub struct FileStatus {
    pub path: String,
    pub status: FileStatusType,
    pub is_binary: bool,
}

impl View for FileStatus {
    type V = (Seq<char>, FileStatusType, bool);

    open spec fn view(&self) -> Self::V {
        (self.path@, self.status, self.is_binary)
    }
}

/// The models of a list of file statuses.
pub open spec fn status_views(v: Seq<FileStatus>) -> Seq<(Seq<char>, FileStatusType, bool)> {
    v.map_values(|f: FileStatus| f@)
}

#[derive(Debug, Clone)]
pub struct WorkingTreeStatus {
    pub unstaged: Vec<FileStatus>,
    pub staged: Vec<FileStatus>,
    pub conflicted: Vec<FileStatus>,
}

// ---------------------------------------------------------------------------
// Diffs
// ---------------------------------------------------------------------------

#[derive(Debug, Clone, Copy, PartialEq, Eq, Structural)]
pub enum DiffOrigin {
    Context,
    Add,
    Delete,
}

#[derive(Debug, Clone, Copy, Default)]
pub struct WordSpan {
    pub start: u32,
    pub end: u32,
    pub emphasized: bool,
}

#[derive(Debug, Clone, Default)]
pub struct SyntaxToken {
    pub start: u32,
    pub end: u32,
    pub scope: String,
}

impl View for SyntaxToken {
    type V = (u32, u32, Seq<char>);

    open spec fn view(&self) -> Self::V {
        (self.start, self.end, self.scope@)
    }
}

#[derive(Debug, Clone, Default)]
pub struct MergedSpan {
    pub start: u32,
    pub end: u32,
    pub syntax_class: String,
    pub emphasized: bool,
}

impl View for MergedSpan {
    type V = (u32, u32, Seq<char>, bool);

    open spec fn view(&self) -> Self::V {
        (self.start, self.end, self.syntax_class@, self.emphasized)
    }
}

impl MergedSpan {
    /// A copy with the same view.
    pub fn copy(&self) -> (r: MergedSpan)
        ensures
            r@ == self@,
    {
        MergedSpan {
            start: self.start,
            end: self.end,
            syntax_class: self.syntax_class.clone(),
            emphasized: self.emphasized,
        }
    }
}

/// How a diff is requested: context size, whitespace handling, whole file.
#[derive(Debug, Clone, Copy)]
pub struct DiffRequestOptions {
    pub context_lines: u32,
    pub ignore_whitespace: bool,
    pub show_full_file: bool,
}

impl DiffRequestOptions {
    /// Three lines of context, whitespace significant, hunks only.
    pub fn default_options() -> (o: DiffRequestOptions)
        ensures
            o.context_lines == 3,
            !o.ignore_whitespace,
            !o.show_full_file,
    {
        DiffRequestOptions { context_lines: 3, ignore_whitespace: false, show_full_file: false }
    }
}

#[derive(Debug, Clone)]
pub struct DiffLine {
    pub origin: DiffOrigin,
    pub content: String,
    pub old_lineno: Option<u32>,
    pub new_lineno: Option<u32>,
    pub spans: Vec<MergedSpan>,
}

/// Model of a diff line.
pub struct DiffLineView {
    pub origin: DiffOrigin,
    pub content: Seq<char>,
    pub old_lineno: Option<u32>,
    pub new_lineno: Option<u32>,
    pub spans: Seq<(u32, u32, Seq<char>, bool)>,
}

impl View for DiffLine {
    type V = DiffLineView;

    open spec fn view(&self) -> DiffLineView {
        DiffLineView {
            origin: self.origin,
            content: self.content@,
            old_lineno: self.old_lineno,
            new_lineno: self.new_lineno,
            spans: self.spans@.map_values(|s: MergedSpan| s@),
        }
    }
}

pub open spec fn line_views(v: Seq<DiffLine>) -> Seq<DiffLineView> {
    v.map_values(|l: DiffLine| l@)
}

impl DiffLine {
    /// A copy with the same view.
    pub fn copy(&self) -> (r: DiffLine)
        ensures
            r@ == self@,
    {
        let mut spans: Vec<MergedSpan> = Vec::new();
        for i in 0..self.spans.len()
            invariant
                spans@.len() == i,
                forall|k: int| 0 <= k < i ==> (#[trigger] spans@[k])@ == self.spans@[k]@,
        {
            spans.push(self.spans[i].copy());
        }
        assert(spans@.map_values(|s: MergedSpan| s@) =~= self.spans@.map_values(|s: MergedSpan| s@));
        DiffLine {
            origin: self.origin,
            content: self.content.clone(),
            old_lineno: self.old_lineno,
            new_lineno: self.new_lineno,
            spans,
        }
    }
}

#[derive(Debug, Clone)]
pub struct DiffHunk {
    pub header: String,
    pub old_start: u32,
    pub old_lines: u32,
    pub new_start: u32,
    pub new_lines: u32,
    pub lines: Vec<DiffLine>,
}

/// Model of a hunk.
pub struct DiffHunkView {
    pub header: Seq<char>,
    pub old_start: u32,
    pub old_lines: u32,
    pub new_start: u32,
    pub new_lines: u32,
    pub lines: Seq<DiffLineView>,
}

impl View for DiffHunk {
    type V = DiffHunkView;

    open spec fn view(&self) -> DiffHunkView {
        DiffHunkView {
            header: self.header@,
            old_start: self.old_start,
            old_lines: self.old_lines,
            new_start: self.new_start,
            new_lines: self.new_lines,
            lines: line_views(self.lines@),
        }
    }
}

pub open spec fn hunk_views(v: Seq<DiffHunk>) -> Seq<DiffHunkView> {
    v.map_values(|h: DiffHunk| h@)
}

impl DiffHunk {
    /// A copy with the same view.
    pub fn copy(&self) -> (r: DiffHunk)
        ensures
            r@ == self@,
    {
        let mut lines: Vec<DiffLine> = Vec::new();
        for i in 0..self.lines.len()
            invariant
                lines@.len() == i,
                forall|k: int| 0 <= k < i ==> (#[trigger] lines@[k])@ == self.lines@[k]@,
        {
            lines.push(self.lines[i].copy());
        }
        assert(line_views(lines@) =~= line_views(self.lines@));
        DiffHunk {
            header: self.header.clone(),
            old_start: self.old_start,
            old_lines: self.old_lines,
            new_start: self.new_start,
            new_lines: self.new_lines,
            lines,
        }
    }
}

#[derive(Debug, Clone, Copy, PartialEq, Eq, Structural)]
pub enum DiffStatus {
    Added,
    Deleted,
    Modified,
    Renamed,
    Copied,
    Untracked,
    Unknown,
}

#[derive(Debug, Clone)]
pub struct FileDiff {
    pub path: String,
    pub status: DiffStatus,
    pub is_binary: bool,
    pub hunks: Vec<DiffHunk>,
}

/// Model of a file diff.
pub struct FileDiffView {
    pub path: Seq<char>,
    pub status: DiffStatus,
    pub is_binary: bool,
    pub hunks: Seq<DiffHunkView>,
}

impl View for FileDiff {
    type V = FileDiffView;

    open spec fn view(&self) -> FileDiffView {
        FileDiffView {
            path: self.path@,
            status: self.status,
            is_binary: self.is_binary,
            hunks: hunk_views(self.hunks@),
        }
    }
}

pub open spec fn file_views(v: Seq<FileDiff>) -> Seq<FileDiffView> {
    v.map_values(|f: FileDiff| f@)
}

// ---------------------------------------------------------------------------
// Commits, operations
// ---------------------------------------------------------------------------

#[derive(Debug, Clone)]
pub struct HeadCommitMessage {
    pub subject: String,
    pub body: Option<String>,
}

#[derive(Debug, Clone)]
pub struct UndoResult {
    pub subject: String,
    pub body: Option<String>,
}

#[derive(Debug, Clone)]
pub struct CommitDetail {
    pub oid: String,
    pub short_oid: String,
    pub summary: String,
    pub body: Option<String>,
    pub author_name: String,
    pub author_email: String,
    pub author_timestamp: i64,
    pub committer_name: String,
    pub committer_email: String,
    pub committer_timestamp: i64,
    pub parent_oids: Vec<String>,
}

#[derive(Debug, Clone, Copy, PartialEq, Eq, Structural)]
pub enum OperationType {
    Idle,
    Merge,
    Rebase,
    CherryPick,
    Revert,
}

#[derive(Debug, Clone)]
pub struct OperationInfo {
    pub op_type: OperationType,
    pub source_branch: Option<String>,
    pub target_branch: Option<String>,
    pub progress: Option<String>,
    pub source_color_index: Option<usize>,
    pub target_color_index: Option<usize>,
    pub rebase_message: Option<String>,
}

#[derive(Debug, Clone)]
pub struct MergeSides {
    pub base: String,
    pub ours: String,
    pub theirs: String,
}

#[derive(Debug, Clone)]
pub struct RebaseTodoItem {
    pub oid: String,
    pub short_oid: String,
    pub summary: String,
    pub author_name: String,
    pub author_timestamp: i64,
}

// ---------------------------------------------------------------------------
// Review sessions
// ---------------------------------------------------------------------------

#[derive(Debug, Clone, Copy, PartialEq, Eq, Structural)]
pub enum Source {
    Diff,
    FullFile,
}

#[derive(Debug, Clone, Copy, PartialEq, Eq, Structural)]
pub enum Side {
    Old,
    New,
}

/// Source coordinates of a comment: never positions in a diff array.
#[derive(Debug, Clone)]
pub struct Anchor {
    pub commit_oid: String,
    pub file_path: String,
    pub source: Source,
    pub side: Side,
    pub start_line: u32,
    pub end_line: u32,
}

#[derive(Debug, Clone)]
pub struct Comment {
    pub id: String,
    pub text: String,
    pub anchor: Option<Anchor>,
    pub cached_excerpt: Option<String>,
    pub commit_oid: Option<String>,
}

#[derive(Debug, Clone)]
pub struct DraftComment {
    pub text: String,
    pub anchor: Option<Anchor>,
}

#[derive(Debug, Clone)]
pub struct ReviewSession {
    pub schema_version: u32,
    pub commits: Vec<String>,
    pub comments: Vec<Comment>,
    pub draft_comment: Option<DraftComment>,
    pub working_tree_snapshot: Option<String>,
    pub index_snapshot: Option<String>,
}

} // verus!
