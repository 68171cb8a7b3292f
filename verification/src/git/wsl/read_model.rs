//! What the read commands of a WSL repository print, read into the
//! application's data: references, the log as a graph, file lists, commit
//! details, branches and the state of an operation in progress.
//!
//! Running the commands is left to the application; each function here takes
//! what a command printed.
use vstd::prelude::*;
use vstd::hash_map::StringHashMap;

use crate::error::TrunkError;

use crate::git::graph::{add_label, labels_view, push_label};
use crate::git::read_model::{
    assign_graph_lanes, commit_keys, layout, max_nat, parse_ref_type, prefix7, ref_type_of,
    short_oid,
};
use crate::git::read_model::{
    parse_porcelain_status, parse_unified_diff, porcelain_readable, porcelain_status, unified_diff,
};
use crate::git::types::{
    BranchInfo, OperationInfo, OperationType, RefsResponse, StashEntry,
    CommitDetail, DiffRequestOptions, DiffStatus, FileDiff, GraphCommit, GraphResult, LabelView,
    RefLabel, RefType, WorkingTreeStatus, edge_views, file_views, label_views, status_views,
    string_views,
};
use crate::git::command_runner::{
    owned_args, stderr_string, stderr_text, stdout_string, stdout_text, str_views, trimmed_chars, CommandOutput,
};
use crate::text::{
    ends_with, parse_usize, parse_usize_chars,
    chars_of, lines, lines_of, parse_i64, parse_i64_chars, piece, split, split_char, splitn,
    splitn_of, string_of, trim, trim_char, trim_char_of, trim_chars, views, words, words_of,
};

verus! {

// ---------------------------------------------------------------------------
// References by commit
// ---------------------------------------------------------------------------

/// The label of one `for-each-ref` line (`<oid>\0<full name>`): branches,
/// remote branches (not a remote's `HEAD`) and tags; a local branch whose
/// full name is `head` is the head branch.
pub open spec fn ref_line_entry(line: Seq<char>, head: Seq<char>) -> Option<(Seq<char>, LabelView)> {
    let fs = splitn(line, '\0', 2);
    let oid = trim(piece(fs, 0));
    let name = trim(piece(fs, 1));
    if oid.len() == 0 || name.len() == 0 {
        None
    } else {
        match ref_type_of(name) {
            None => None,
            Some((t, short)) => Some((oid, (name, short, t, t == RefType::LocalBranch && name == head, 0usize))),
        }
    }
}

/// The label of one `stash list` line (`<oid>\0<selector>\0<subject>`).
pub open spec fn stash_line_entry(line: Seq<char>) -> Option<(Seq<char>, LabelView)> {
    let fs = splitn(line, '\0', 3);
    let oid = trim(piece(fs, 0));
    let short = trim(piece(fs, 1));
    let name = trim(piece(fs, 2));
    if oid.len() == 0 || short.len() == 0 {
        None
    } else {
        Some((oid, (name, short, RefType::Stash, false, 0usize)))
    }
}

pub open spec fn add_entry(m: Map<Seq<char>, Seq<LabelView>>, e: Option<(Seq<char>, LabelView)>) -> Map<Seq<char>, Seq<LabelView>> {
    match e {
        Some((oid, l)) => add_label(m, oid, l),
        None => m,
    }
}

pub open spec fn ref_lines_map(m: Map<Seq<char>, Seq<LabelView>>, ls: Seq<Seq<char>>, head: Seq<char>, k: int) -> Map<Seq<char>, Seq<LabelView>>
    decreases k,
{
    if k <= 0 {
        m
    } else {
        add_entry(ref_lines_map(m, ls, head, k - 1), ref_line_entry(ls[k - 1], head))
    }
}

pub open spec fn stash_lines_map(m: Map<Seq<char>, Seq<LabelView>>, ls: Seq<Seq<char>>, k: int) -> Map<Seq<char>, Seq<LabelView>>
    decreases k,
{
    if k <= 0 {
        m
    } else {
        add_entry(stash_lines_map(m, ls, k - 1), stash_line_entry(ls[k - 1]))
    }
}

/// Labels by commit from what `symbolic-ref -q HEAD`, `for-each-ref` and
/// `stash list` printed: references in order, then stash entries.
pub open spec fn wsl_label_map(head_out: Seq<char>, refs_out: Seq<char>, stash_out: Seq<char>) -> Map<Seq<char>, Seq<LabelView>> {
    let rl = lines(refs_out);
    let sl = lines(stash_out);
    stash_lines_map(ref_lines_map(Map::empty(), rl, trim(head_out), rl.len() as int), sl, sl.len() as int)
}

fn ref_line_entry_of(line: &[char], head: &Vec<char>) -> (r: Option<(String, RefLabel)>)
    ensures
        match r {
            Some((oid, l)) => ref_line_entry(line@, head@) == Some((oid@, l@)),
            None => ref_line_entry(line@, head@) is None,
        },
{
    let fs = splitn_of(line, '\0', 2);
    proof {
        crate::text::lemma_splitn_len(line@, '\0', 2);
    }
    let empty: Vec<char> = Vec::new();
    let oid = trim_chars(&fs[0]);
    let name = if fs.len() > 1 {
        trim_chars(&fs[1])
    } else {
        trim_chars(&empty)
    };
    assert(oid@ == trim(piece(views(fs@), 0)));
    assert(name@ == trim(piece(views(fs@), 1)));
    if oid.len() == 0 || name.len() == 0 {
        return None;
    }
    let name_s = string_of(&name);
    match parse_ref_type(name_s.as_str()) {
        None => None,
        Some((t, short)) => {
            let is_local = match t {
                RefType::LocalBranch => true,
                _ => false,
            };
            let is_head = is_local && crate::text::chars_eq(&name, head);
            Some(
                (
                    string_of(&oid),
                    RefLabel { name: name_s, short_name: short, ref_type: t, is_head, color_index: 0 },
                ),
            )
        },
    }
}

fn stash_line_entry_of(line: &[char]) -> (r: Option<(String, RefLabel)>)
    ensures
        match r {
            Some((oid, l)) => stash_line_entry(line@) == Some((oid@, l@)),
            None => stash_line_entry(line@) is None,
        },
{
    let fs = splitn_of(line, '\0', 3);
    proof {
        crate::text::lemma_splitn_len(line@, '\0', 3);
    }
    let empty: Vec<char> = Vec::new();
    let oid = trim_chars(&fs[0]);
    let short = if fs.len() > 1 {
        trim_chars(&fs[1])
    } else {
        trim_chars(&empty)
    };
    let name = if fs.len() > 2 {
        trim_chars(&fs[2])
    } else {
        trim_chars(&empty)
    };
    assert(oid@ == trim(piece(views(fs@), 0)));
    assert(short@ == trim(piece(views(fs@), 1)));
    assert(name@ == trim(piece(views(fs@), 2)));
    if oid.len() == 0 || short.len() == 0 {
        return None;
    }
    Some(
        (
            string_of(&oid),
            RefLabel {
                name: string_of(&name),
                short_name: string_of(&short),
                ref_type: RefType::Stash,
                is_head: false,
                color_index: 0,
            },
        ),
    )
}

/// Labels by commit from what `symbolic-ref -q HEAD` (empty when it
/// failed), `for-each-ref --format=%(objectname)%00%(refname)` and
/// `stash list --format=%H%x00%gd%x00%s` (empty when it failed) printed.
pub fn wsl_refs_by_oid(head_output: &str, refs_output: &str, stash_output: &str) -> (m: StringHashMap<Vec<RefLabel>>)
    ensures
        labels_view(m@) == wsl_label_map(head_output@, refs_output@, stash_output@),
{
    let head = trim_chars(&chars_of(head_output));
    let rl = lines_of(&chars_of(refs_output));
    let sl = lines_of(&chars_of(stash_output));
    let mut m: StringHashMap<Vec<RefLabel>> = StringHashMap::new();
    assert(labels_view(m@) =~= Map::<Seq<char>, Seq<LabelView>>::empty());
    let ghost rv = views(rl@);
    for i in 0..rl.len()
        invariant
            rv == views(rl@),
            rv == lines(refs_output@),
            head@ == trim(head_output@),
            labels_view(m@) == ref_lines_map(Map::empty(), rv, head@, i as int),
    {
        assert(rv[i as int] == rl@[i as int]@);
        match ref_line_entry_of(&rl[i], &head) {
            Some((oid, l)) => push_label(&mut m, oid, l),
            None => {},
        }
    }
    let ghost base = labels_view(m@);
    let ghost sv = views(sl@);
    for i in 0..sl.len()
        invariant
            sv == views(sl@),
            sv == lines(stash_output@),
            labels_view(m@) == stash_lines_map(base, sv, i as int),
    {
        assert(sv[i as int] == sl@[i as int]@);
        match stash_line_entry_of(&sl[i]) {
            Some((oid, l)) => push_label(&mut m, oid, l),
            None => {},
        }
    }
    m
}


// ---------------------------------------------------------------------------
// The log as a graph
// ---------------------------------------------------------------------------

/// One commit of the log.
pub struct LogRow {
    pub oid: Seq<char>,
    pub parents: Seq<Seq<char>>,
    pub summary: Seq<char>,
    pub body: Option<Seq<char>>,
    pub author_name: Seq<char>,
    pub author_email: Seq<char>,
    pub timestamp: i64,
}

/// A trimmed field when it is there and not empty.
pub open spec fn nonblank_field(fs: Seq<Seq<char>>, k: int) -> Option<Seq<char>> {
    if 0 <= k < fs.len() && trim(fs[k]).len() > 0 {
        Some(trim(fs[k]))
    } else {
        None
    }
}

/// A number field (`unwrap_or("0").trim().parse().unwrap_or(0)`).
pub open spec fn number_field(fs: Seq<Seq<char>>, k: int) -> i64 {
    let f = if 0 <= k < fs.len() {
        fs[k]
    } else {
        "0"@
    };
    match parse_i64(trim(f)) {
        Some(v) => v,
        None => 0,
    }
}

/// The commit of one log record (`%H\0%P\0%s\0%b\0%an\0%ae\0%at`, newlines
/// around it dropped); none for a blank record or one without an id.
pub open spec fn log_row(record: Seq<char>) -> Option<LogRow> {
    let r = trim_char(record, '\n');
    let fs = splitn(r, '\0', 7);
    if r.len() == 0 || piece(fs, 0).len() == 0 {
        None
    } else {
        Some(
            LogRow {
                oid: piece(fs, 0),
                parents: words(piece(fs, 1)),
                summary: piece(fs, 2),
                body: nonblank_field(fs, 3),
                author_name: piece(fs, 4),
                author_email: piece(fs, 5),
                timestamp: number_field(fs, 6),
            },
        )
    }
}

pub open spec fn log_rows_acc(records: Seq<Seq<char>>, k: int) -> Seq<LogRow>
    decreases k,
{
    if k <= 0 {
        Seq::empty()
    } else {
        match log_row(records[k - 1]) {
            Some(row) => log_rows_acc(records, k - 1).push(row),
            None => log_rows_acc(records, k - 1),
        }
    }
}

/// The commits of the log, records separated by `\x1e`.
pub open spec fn log_rows(log: Seq<char>) -> Seq<LogRow> {
    let records = split(log, '\u{1e}');
    log_rows_acc(records, records.len() as int)
}

pub open spec fn opt_seq(o: Option<String>) -> Option<Seq<char>> {
    match o {
        Some(s) => Some(s@),
        None => None,
    }
}

/// A commit read from the log, with its labels, before its lane is known.
pub open spec fn row_commit(c: GraphCommit, row: LogRow, labels: Map<Seq<char>, Seq<LabelView>>, head: Option<Seq<char>>) -> bool {
    let refs = if labels.contains_key(row.oid) {
        labels[row.oid]
    } else {
        Seq::empty()
    };
    &&& c.oid@ == row.oid
    &&& c.short_oid@ == prefix7(row.oid)
    &&& string_views(c.parent_oids@) == row.parents
    &&& c.summary@ == row.summary
    &&& opt_seq(c.body) == row.body
    &&& c.author_name@ == row.author_name
    &&& c.author_email@ == row.author_email
    &&& c.author_timestamp == row.timestamp
    &&& label_views(c.refs@) == refs
    &&& c.is_stash == has_stash(refs)
    &&& c.is_head == (head == Some(row.oid))
    &&& c.is_merge == (row.parents.len() >= 2)
    &&& c.is_branch_tip == (refs.len() > 0)
}

/// Whether one of the labels is a stash entry.
pub open spec fn has_stash(refs: Seq<LabelView>) -> bool {
    exists|j: int| 0 <= j < refs.len() && (#[trigger] refs[j]).2 == RefType::Stash
}

pub open spec fn row_keys(rows: Seq<LogRow>) -> Seq<(Seq<char>, Seq<Seq<char>>)> {
    rows.map_values(|r: LogRow| (r.oid, r.parents))
}

fn strings_of(v: &Vec<Vec<char>>) -> (r: Vec<String>)
    ensures
        string_views(r@) == views(v@),
{
    let mut out: Vec<String> = Vec::new();
    for i in 0..v.len()
        invariant
            string_views(out@) == views(v@).take(i as int),
    {
        let ghost before = string_views(out@);
        out.push(string_of(&v[i]));
        assert(string_views(out@) =~= before.push(v@[i as int]@));
        assert(views(v@).take(i + 1) =~= views(v@).take(i as int).push(v@[i as int]@));
    }
    assert(views(v@).take(v@.len() as int) =~= views(v@));
    out
}

fn has_stash_label(v: &Vec<RefLabel>) -> (r: bool)
    ensures
        r == has_stash(label_views(v@)),
{
    for i in 0..v.len()
        invariant
            forall|j: int| 0 <= j < i ==> (#[trigger] label_views(v@)[j]).2 != RefType::Stash,
    {
        assert(label_views(v@)[i as int] == v@[i as int]@);
        match v[i].ref_type {
            RefType::Stash => return true,
            _ => {},
        }
    }
    false
}

fn commit_of_record(
    record: &[char],
    labels: &StringHashMap<Vec<RefLabel>>,
    head: &Option<String>,
) -> (r: Option<GraphCommit>)
    ensures
        match r {
            Some(c) => log_row(record@) matches Some(row) && row_commit(c, row, labels_view(labels@), opt_seq(*head)),
            None => log_row(record@) is None,
        },
{
    let rec = trim_char_of(record, '\n');
    if rec.len() == 0 {
        return None;
    }
    let fs = splitn_of(&rec, '\0', 7);
    proof {
        crate::text::lemma_splitn_len(rec@, '\0', 7);
    }
    let ghost fv = views(fs@);
    let empty: Vec<char> = Vec::new();
    if fs[0].len() == 0 {
        return None;
    }
    let oid = string_of(&fs[0]);
    let parents = strings_of(&words_of(if fs.len() > 1 {
        &fs[1]
    } else {
        &empty
    }));
    let summary = string_of(if fs.len() > 2 {
        &fs[2]
    } else {
        &empty
    });
    let body = if fs.len() > 3 {
        let b = trim_chars(&fs[3]);
        if b.len() > 0 {
            Some(string_of(&b))
        } else {
            None
        }
    } else {
        None
    };
    let author_name = string_of(if fs.len() > 4 {
        &fs[4]
    } else {
        &empty
    });
    let author_email = string_of(if fs.len() > 5 {
        &fs[5]
    } else {
        &empty
    });
    let zero = chars_of("0");
    let ts_text = trim_chars(if fs.len() > 6 {
        &fs[6]
    } else {
        &zero
    });
    proof {
        reveal_strlit("0");
    }
    let author_timestamp = match parse_i64_chars(&ts_text) {
        Some(v) => v,
        None => 0,
    };
    let refs = match labels.get(oid.as_str()) {
        Some(v) => crate::git::graph::copy_labels(v),
        None => Vec::new(),
    };
    let is_stash = has_stash_label(&refs);
    let is_head = match head {
        Some(h) => h.eq(&oid),
        None => false,
    };
    let is_merge = parents.len() >= 2;
    let is_branch_tip = refs.len() > 0;
    proof {
        let r = trim_char(record@, '\n');
        assert(rec@ == r);
        assert(fv == splitn(r, '\0', 7));
        assert(oid@ == piece(fv, 0));
        assert(string_views(parents@) == words(piece(fv, 1)));
        assert(summary@ == piece(fv, 2));
        assert(opt_seq(body) == nonblank_field(fv, 3));
        assert(author_name@ == piece(fv, 4));
        assert(author_email@ == piece(fv, 5));
        assert(zero@ == "0"@);
        assert(author_timestamp == number_field(fv, 6));
        assert(label_views(refs@) == (if labels_view(labels@).contains_key(oid@) {
            labels_view(labels@)[oid@]
        } else {
            Seq::<LabelView>::empty()
        }));
        assert(label_views(refs@).len() == refs@.len());
    }
    let c = GraphCommit {
        short_oid: short_oid(oid.as_str()),
        oid,
        summary,
        body,
        author_name,
        author_email,
        author_timestamp,
        parent_oids: parents,
        column: 0,
        color_index: 0,
        edges: Vec::new(),
        refs,
        is_head,
        is_merge,
        is_branch_tip,
        is_stash,
    };
    Some(c)
}

/// The commit graph from what `git log --all --topo-order --date-order
/// --format=%H%x00%P%x00%s%x00%b%x00%an%x00%ae%x00%at%x1e` printed, with the
/// labels of each commit and the commit `HEAD` names (`rev-parse --verify
/// HEAD`, trimmed; none when it failed), laid out in lanes.
pub fn wsl_commit_graph(labels: &StringHashMap<Vec<RefLabel>>, head: &Option<String>, log: &str) -> (r: GraphResult)
    ensures
        ({
            let rows = log_rows(log@);
            let (acc, lay) = layout(row_keys(rows));
            &&& r.commits@.len() == rows.len()
            &&& r.max_columns as nat == max_nat(acc.max, 1)
            &&& forall|i: int|
                0 <= i < rows.len() ==> {
                    let c = #[trigger] r.commits@[i];
                    &&& row_commit(c, rows[i], labels_view(labels@), opt_seq(*head))
                    &&& c.column == lay[i].0 as usize
                    &&& c.color_index == lay[i].0 as usize
                    &&& edge_views(c.edges@) == lay[i].1
                }
        }),
{
    let records = split_char(&chars_of(log), '\u{1e}');
    let ghost rv = views(records@);
    let mut commits: Vec<GraphCommit> = Vec::new();
    for k in 0..records.len()
        invariant
            rv == views(records@),
            rv == split(log@, '\u{1e}'),
            commits@.len() == log_rows_acc(rv, k as int).len(),
            forall|i: int|
                0 <= i < commits@.len() ==> row_commit(
                    #[trigger] commits@[i],
                    log_rows_acc(rv, k as int)[i],
                    labels_view(labels@),
                    opt_seq(*head),
                ),
    {
        assert(rv[k as int] == records@[k as int]@);
        match commit_of_record(&records[k], labels, head) {
            Some(c) => {
                let ghost before = commits@;
                commits.push(c);
                proof {
                    let rows = log_rows_acc(rv, k + 1);
                    assert forall|i: int| 0 <= i < commits@.len() implies row_commit(
                        #[trigger] commits@[i],
                        rows[i],
                        labels_view(labels@),
                        opt_seq(*head),
                    ) by {
                        if i < before.len() {
                            assert(commits@[i] == before[i]);
                        }
                    }
                }
            },
            None => {},
        }
    }
    let ghost rows = log_rows(log@);
    let ghost pre = commits@;
    proof {
        assert(commit_keys(pre) =~= row_keys(rows)) by {
            assert forall|i: int| 0 <= i < pre.len() implies commit_keys(pre)[i] == row_keys(rows)[i] by {
                assert(row_commit(pre[i], rows[i], labels_view(labels@), opt_seq(*head)));
            }
        }
    }
    let max_columns = assign_graph_lanes(&mut commits);
    proof {
        let (acc, lay) = layout(row_keys(rows));
        assert forall|i: int| 0 <= i < rows.len() implies {
            let c = #[trigger] commits@[i];
            &&& row_commit(c, rows[i], labels_view(labels@), opt_seq(*head))
            &&& c.column == lay[i].0 as usize
            &&& c.color_index == lay[i].0 as usize
            &&& edge_views(c.edges@) == lay[i].1
        } by {
            assert(row_commit(pre[i], rows[i], labels_view(labels@), opt_seq(*head)));
            assert(commits@[i].refs == pre[i].refs);
        }
    }
    GraphResult { commits, max_columns }
}


// ---------------------------------------------------------------------------
// Status and diffs
// ---------------------------------------------------------------------------

/// The working-tree status from what `status --porcelain=v1 -z` printed.
pub fn wsl_status(output: &str) -> (r: WorkingTreeStatus)
    requires
        porcelain_readable(output@),
    ensures
        status_views(r.unstaged@) == porcelain_status(output@).unstaged,
        status_views(r.staged@) == porcelain_status(output@).staged,
        status_views(r.conflicted@) == porcelain_status(output@).conflicted,
{
    parse_porcelain_status(output)
}

/// The context size asked of `git diff`: the whole file when it is shown
/// whole.
pub open spec fn unified_context(o: DiffRequestOptions) -> nat {
    if o.show_full_file {
        100_000
    } else {
        o.context_lines as nat
    }
}

/// The arguments of a diff command: `base`, then colour off, rename
/// detection, the context size, whitespace handling, and the path.
pub open spec fn diff_arg_list(base: Seq<Seq<char>>, file_path: Option<Seq<char>>, o: DiffRequestOptions) -> Seq<Seq<char>> {
    base + seq!["--no-color"@, "--find-renames"@, "--unified="@ + crate::text::decimal(unified_context(o))]
        + (if o.ignore_whitespace {
        seq!["--ignore-all-space"@]
    } else {
        Seq::empty()
    }) + (match file_path {
        Some(p) => seq!["--"@, p],
        None => Seq::empty(),
    })
}

fn push_owned(v: &mut Vec<String>, s: &str)
    ensures
        final(v)@.map_values(|a: String| a@) == old(v)@.map_values(|a: String| a@).push(s@),
{
    let ghost before = v@.map_values(|a: String| a@);
    v.push(String::from_str(s));
    assert(v@.map_values(|a: String| a@) =~= before.push(s@));
}

/// The arguments of a diff command over `base` for one path, or for all.
pub fn diff_args(base: &[&str], file_path: Option<&str>, options: &DiffRequestOptions) -> (r: Vec<String>)
    ensures
        r@.map_values(|a: String| a@) == diff_arg_list(
            str_views(base@),
            match file_path {
                Some(p) => Some(p@),
                None => None,
            },
            *options,
        ),
{
    let mut args = owned_args(base);
    push_owned(&mut args, "--no-color");
    push_owned(&mut args, "--find-renames");
    let mut u = chars_of("--unified=");
    let n: u64 = if options.show_full_file {
        100_000
    } else {
        options.context_lines as u64
    };
    crate::text::push_decimal(&mut u, n);
    let us = string_of(&u);
    push_owned(&mut args, us.as_str());
    let ghost mid = args@.map_values(|a: String| a@);
    if options.ignore_whitespace {
        push_owned(&mut args, "--ignore-all-space");
    }
    let ghost mid2 = args@.map_values(|a: String| a@);
    match file_path {
        Some(p) => {
            push_owned(&mut args, "--");
            push_owned(&mut args, p);
        },
        None => {},
    }
    assert(args@.map_values(|a: String| a@) =~= diff_arg_list(
        str_views(base@),
        match file_path {
            Some(p) => Some(p@),
            None => None,
        },
        *options,
    ));
    args
}

/// The file diffs in what `diff --cached` printed.
pub fn wsl_diff_staged(output: &str) -> (r: Vec<FileDiff>)
    ensures
        file_views(r@) == unified_diff(output@),
{
    parse_unified_diff(output)
}

/// The file diffs in what `diff <oid>^!` printed.
pub fn wsl_diff_commit(output: &str) -> (r: Vec<FileDiff>)
    ensures
        file_views(r@) == unified_diff(output@),
{
    parse_unified_diff(output)
}

/// The revision that names one commit's own changes: `<oid>^!`.
pub fn commit_revision(oid: &str) -> (r: String)
    ensures
        r@ == oid@ + "^!"@,
{
    let mut v = chars_of(oid);
    crate::text::push_str(&mut v, "^!");
    string_of(&v)
}

/// What reading the unstaged changes of one path needs next.
pub enum UnstagedStep {
    /// Run git with these arguments and come back with what it printed.
    Run(Vec<String>),
    /// The diffs.
    Done(Vec<FileDiff>),
}

/// The unstaged changes of a path, read in up to three commands: `diff`
/// for a tracked path; when it prints nothing, `ls-files --others` to see
/// whether the path is untracked; then a diff against `/dev/null`, whose
/// files are marked untracked. `outputs` holds what the commands run so far
/// printed; the result is the next command, or the diffs.
pub fn wsl_diff_unstaged(file_path: &str, options: &DiffRequestOptions, outputs: &Vec<String>) -> (r: UnstagedStep)
    ensures
        outputs@.len() == 0 ==> (r matches UnstagedStep::Run(a) && a@.map_values(|x: String| x@)
            == diff_arg_list(seq!["diff"@], Some(file_path@), *options)),
        outputs@.len() >= 1 && trim(outputs@[0]@).len() > 0 ==> (r matches UnstagedStep::Done(d)
            && file_views(d@) == unified_diff(outputs@[0]@)),
        outputs@.len() == 1 && trim(outputs@[0]@).len() == 0 ==> (r matches UnstagedStep::Run(a) && a@.map_values(
            |x: String| x@,
        ) == seq!["ls-files"@, "--others"@, "--exclude-standard"@, "--"@, file_path@]),
        outputs@.len() >= 2 && trim(outputs@[0]@).len() == 0 && trim(outputs@[1]@).len() == 0 ==> (r matches UnstagedStep::Done(d) && d@.len() == 0),
        outputs@.len() == 2 && trim(outputs@[0]@).len() == 0 && trim(outputs@[1]@).len() > 0 ==> (r matches UnstagedStep::Run(a) && a@.map_values(|x: String| x@)
            == diff_arg_list(seq!["diff"@], None, *options) + seq!["--no-index"@, "/dev/null"@, file_path@]),
        outputs@.len() >= 3 && trim(outputs@[0]@).len() == 0 && trim(outputs@[1]@).len() > 0 ==> (r matches UnstagedStep::Done(d) && d@.len() == unified_diff(outputs@[2]@).len() && forall|i: int| 0 <= i < d@.len() ==> (#[trigger] d@[i])@ == (crate::git::types::FileDiffView { status: DiffStatus::Untracked, ..unified_diff(outputs@[2]@)[i] })),
{
    if outputs.len() == 0 {
        let base = ["diff"];
        let a = diff_args(&base, Some(file_path), options);
        assert(str_views(base@) =~= seq!["diff"@]);
        return UnstagedStep::Run(a);
    }
    if !crate::text::is_blank(&chars_of(outputs[0].as_str())) {
        return UnstagedStep::Done(parse_unified_diff(outputs[0].as_str()));
    }
    if outputs.len() == 1 {
        let mut a: Vec<String> = Vec::new();
        push_owned(&mut a, "ls-files");
        push_owned(&mut a, "--others");
        push_owned(&mut a, "--exclude-standard");
        push_owned(&mut a, "--");
        push_owned(&mut a, file_path);
        assert(a@.map_values(|x: String| x@) =~= seq!["ls-files"@, "--others"@, "--exclude-standard"@, "--"@, file_path@]);
        return UnstagedStep::Run(a);
    }
    if crate::text::is_blank(&chars_of(outputs[1].as_str())) {
        return UnstagedStep::Done(Vec::new());
    }
    if outputs.len() == 2 {
        let base = ["diff"];
        let mut a = diff_args(&base, None, options);
        assert(str_views(base@) =~= seq!["diff"@]);
        let ghost before = a@.map_values(|x: String| x@);
        push_owned(&mut a, "--no-index");
        push_owned(&mut a, "/dev/null");
        push_owned(&mut a, file_path);
        assert(a@.map_values(|x: String| x@) =~= before + seq!["--no-index"@, "/dev/null"@, file_path@]);
        return UnstagedStep::Run(a);
    }
    let mut diffs = parse_unified_diff(outputs[2].as_str());
    let ghost parsed = diffs@;
    let n = diffs.len();
    for i in 0..n
        invariant
            n == diffs@.len(),
            n == parsed.len(),
            forall|k: int| 0 <= k < i ==> (#[trigger] diffs@[k])@ == (crate::git::types::FileDiffView { status: DiffStatus::Untracked, ..parsed[k]@ }),
            forall|k: int| i <= k < n ==> #[trigger] diffs@[k] == parsed[k],
    {
        diffs[i].status = DiffStatus::Untracked;
    }
    proof {
        assert forall|k: int| 0 <= k < n implies parsed[k]@ == unified_diff(outputs@[2]@)[k] by {
            assert(file_views(parsed)[k] == parsed[k]@);
        }
    }
    UnstagedStep::Done(diffs)
}

// ---------------------------------------------------------------------------
// Files of a commit, and commit details
// ---------------------------------------------------------------------------

/// The status letter of `diff-tree --name-status`.
pub open spec fn name_status(c: char) -> DiffStatus {
    if c == 'A' {
        DiffStatus::Added
    } else if c == 'D' {
        DiffStatus::Deleted
    } else if c == 'R' {
        DiffStatus::Renamed
    } else if c == 'C' {
        DiffStatus::Copied
    } else if c == 'M' {
        DiffStatus::Modified
    } else {
        DiffStatus::Unknown
    }
}

/// One `--name-status` line: the status and the last tab-separated field
/// (the new path of a rename); none when there is no path.
pub open spec fn name_status_line(line: Seq<char>) -> Option<(DiffStatus, Seq<char>)> {
    let parts = split(line, '\t');
    let path = if parts.len() >= 2 {
        parts.last()
    } else {
        Seq::empty()
    };
    let code = parts[0];
    if path.len() == 0 {
        None
    } else {
        Some((name_status(if code.len() > 0 { code[0] } else { 'M' }), path))
    }
}

pub open spec fn name_status_rows(ls: Seq<Seq<char>>, k: int) -> Seq<(DiffStatus, Seq<char>)>
    decreases k,
{
    if k <= 0 {
        Seq::empty()
    } else {
        match name_status_line(ls[k - 1]) {
            Some(row) => name_status_rows(ls, k - 1).push(row),
            None => name_status_rows(ls, k - 1),
        }
    }
}

/// The files a commit changed, from what `diff-tree --root --no-commit-id
/// --name-status -r <oid>` printed, without hunks.
pub fn wsl_list_commit_files(output: &str) -> (r: Vec<FileDiff>)
    ensures
        ({
            let ls = lines(output@);
            let rows = name_status_rows(ls, ls.len() as int);
            &&& r@.len() == rows.len()
            &&& forall|i: int|
                0 <= i < rows.len() ==> {
                    let f = #[trigger] r@[i];
                    f.path@ == rows[i].1 && f.status == rows[i].0 && !f.is_binary && f.hunks@.len() == 0
                }
        }),
{
    let ls = lines_of(&chars_of(output));
    let ghost lv = views(ls@);
    let mut files: Vec<FileDiff> = Vec::new();
    for k in 0..ls.len()
        invariant
            lv == views(ls@),
            lv == lines(output@),
            files@.len() == name_status_rows(lv, k as int).len(),
            forall|i: int|
                0 <= i < files@.len() ==> {
                    let f = #[trigger] files@[i];
                    let row = name_status_rows(lv, k as int)[i];
                    f.path@ == row.1 && f.status == row.0 && !f.is_binary && f.hunks@.len() == 0
                },
    {
        assert(lv[k as int] == ls@[k as int]@);
        let parts = split_char(&ls[k], '\t');
        let np = parts.len();
        if np >= 2 && parts[np - 1].len() > 0 {
            let code = &parts[0];
            let c = if code.len() > 0 {
                code[0]
            } else {
                'M'
            };
            let status = if c == 'A' {
                DiffStatus::Added
            } else if c == 'D' {
                DiffStatus::Deleted
            } else if c == 'R' {
                DiffStatus::Renamed
            } else if c == 'C' {
                DiffStatus::Copied
            } else if c == 'M' {
                DiffStatus::Modified
            } else {
                DiffStatus::Unknown
            };
            assert(views(parts@).last() == parts@[np - 1]@);
            assert(views(parts@)[0] == parts@[0]@);
            let ghost before = files@;
            files.push(FileDiff { path: string_of(&parts[np - 1]), status, is_binary: false, hunks: Vec::new() });
            proof {
                assert forall|i: int| 0 <= i < files@.len() implies {
                    let f = #[trigger] files@[i];
                    let row = name_status_rows(lv, k + 1)[i];
                    f.path@ == row.1 && f.status == row.0 && !f.is_binary && f.hunks@.len() == 0
                } by {
                    if i < before.len() {
                        assert(files@[i] == before[i]);
                    }
                }
            }
        } else {
            proof {
                if np >= 2 {
                    assert(views(parts@).last() == parts@[np - 1]@);
                }
            }
        }
    }
    files
}

/// The details of a commit from what `show -s --format=%H%x00%s%x00%b%x00%an
/// %x00%ae%x00%at%x00%cn%x00%ce%x00%ct%x00%P <oid>` printed (trailing
/// newlines dropped).
pub open spec fn commit_detail_of(output: Seq<char>) -> (Seq<char>, Seq<char>, Option<Seq<char>>, Seq<char>, Seq<char>, i64, Seq<char>, Seq<char>, i64, Seq<Seq<char>>) {
    let fs = splitn(crate::text::trim_end_char(output, '\n'), '\0', 10);
    let ts = |k: int| match parse_i64(if 0 <= k < fs.len() { fs[k] } else { "0"@ }) {
        Some(v) => v,
        None => 0i64,
    };
    (piece(fs, 0), piece(fs, 1), nonblank_field(fs, 2), piece(fs, 3), piece(fs, 4), ts(5), piece(fs, 6), piece(fs, 7), ts(8), words(piece(fs, 9)))
}

fn field_or(fs: &Vec<Vec<char>>, k: usize, d: &Vec<char>) -> (r: Vec<char>)
    ensures
        r@ == (if k < fs@.len() { fs@[k as int]@ } else { d@ }),
{
    if k < fs.len() {
        crate::text::copy_chars(&fs[k])
    } else {
        crate::text::copy_chars(d)
    }
}

/// The details of a commit from what `show -s` printed.
pub fn wsl_commit_detail(output: &str) -> (r: CommitDetail)
    ensures
        ({
            let (oid, summary, body, an, ae, at, cn, ce, ct, parents) = commit_detail_of(output@);
            &&& r.oid@ == oid
            &&& r.short_oid@ == prefix7(oid)
            &&& r.summary@ == summary
            &&& opt_seq(r.body) == body
            &&& r.author_name@ == an
            &&& r.author_email@ == ae
            &&& r.author_timestamp == at
            &&& r.committer_name@ == cn
            &&& r.committer_email@ == ce
            &&& r.committer_timestamp == ct
            &&& string_views(r.parent_oids@) == parents
        }),
{
    let t = crate::text::trim_end_char_of(&chars_of(output), '\n');
    let fs = splitn_of(&t, '\0', 10);
    let ghost fv = views(fs@);
    let empty: Vec<char> = Vec::new();
    let zero = chars_of("0");
    proof {
        reveal_strlit("0");
    }
    let oid = string_of(&field_or(&fs, 0, &empty));
    let summary = string_of(&field_or(&fs, 1, &empty));
    let body = if fs.len() > 2 {
        let b = trim_chars(&fs[2]);
        if b.len() > 0 {
            Some(string_of(&b))
        } else {
            None
        }
    } else {
        None
    };
    let author_name = string_of(&field_or(&fs, 3, &empty));
    let author_email = string_of(&field_or(&fs, 4, &empty));
    let author_timestamp = match parse_i64_chars(&field_or(&fs, 5, &zero)) {
        Some(v) => v,
        None => 0,
    };
    let committer_name = string_of(&field_or(&fs, 6, &empty));
    let committer_email = string_of(&field_or(&fs, 7, &empty));
    let committer_timestamp = match parse_i64_chars(&field_or(&fs, 8, &zero)) {
        Some(v) => v,
        None => 0,
    };
    let parent_oids = strings_of(&words_of(&field_or(&fs, 9, &empty)));
    CommitDetail {
        short_oid: short_oid(oid.as_str()),
        oid,
        summary,
        body,
        author_name,
        author_email,
        author_timestamp,
        committer_name,
        committer_email,
        committer_timestamp,
        parent_oids,
    }
}


// ---------------------------------------------------------------------------
// Branches, tags and stashes
// ---------------------------------------------------------------------------

/// `(name, upstream, time)` of one branch line
/// (`%(refname:short)\0%(upstream:short)\0%(committerdate:unix)`); none
/// when the name is empty.
pub open spec fn branch_row(line: Seq<char>) -> Option<(Seq<char>, Option<Seq<char>>, i64)> {
    let fs = splitn(line, '\0', 3);
    let name = piece(fs, 0);
    let upstream = if fs.len() > 1 && fs[1].len() > 0 {
        Some(fs[1])
    } else {
        None
    };
    let ts = match parse_i64(if fs.len() > 2 { fs[2] } else { "0"@ }) {
        Some(v) => v,
        None => 0,
    };
    if name.len() == 0 {
        None
    } else {
        Some((name, upstream, ts))
    }
}

pub open spec fn branch_rows(ls: Seq<Seq<char>>, k: int) -> Seq<(Seq<char>, Option<Seq<char>>, i64)>
    decreases k,
{
    if k <= 0 {
        Seq::empty()
    } else {
        match branch_row(ls[k - 1]) {
            Some(r) => branch_rows(ls, k - 1).push(r),
            None => branch_rows(ls, k - 1),
        }
    }
}

/// How many of the first `k` branches have an upstream.
pub open spec fn upstreams_before(rows: Seq<(Seq<char>, Option<Seq<char>>, i64)>, k: int) -> nat
    decreases k,
{
    if k <= 0 {
        0
    } else {
        upstreams_before(rows, k - 1) + if rows[k - 1].1 is Some {
            1nat
        } else {
            0nat
        }
    }
}

/// `(ahead, behind)` from what `rev-list --left-right --count` printed.
pub open spec fn ahead_behind(out: Seq<char>) -> (usize, usize) {
    let ws = words(out);
    let a = match parse_usize(piece(ws, 0)) {
        Some(v) => v,
        None => 0,
    };
    let b = match parse_usize(piece(ws, 1)) {
        Some(v) => v,
        None => 0,
    };
    (a, b)
}

/// The local branch `i` of the listing.
pub open spec fn local_branch(
    rows: Seq<(Seq<char>, Option<Seq<char>>, i64)>,
    i: int,
    head: Seq<char>,
    counts: Seq<Seq<char>>,
    b: BranchInfo,
) -> bool {
    let (name, upstream, ts) = rows[i];
    let k = upstreams_before(rows, i) as int;
    let (ahead, behind) = if upstream is Some {
        ahead_behind(piece(counts, k))
    } else {
        (0usize, 0usize)
    };
    &&& b.name@ == name
    &&& b.is_head == (name == head)
    &&& opt_seq(b.upstream) == upstream
    &&& b.ahead == ahead
    &&& b.behind == behind
    &&& b.last_commit_timestamp == ts
}

/// `(name, time)` of one remote-branch line, none for a remote's `HEAD`.
pub open spec fn remote_row(line: Seq<char>) -> Option<(Seq<char>, i64)> {
    let fs = splitn(line, '\0', 2);
    let name = piece(fs, 0);
    if ends_with(name, "/HEAD"@) {
        None
    } else {
        Some(
            (
                name,
                match parse_i64(if fs.len() > 1 { fs[1] } else { "0"@ }) {
                    Some(v) => v,
                    None => 0,
                },
            ),
        )
    }
}

pub open spec fn remote_rows(ls: Seq<Seq<char>>, k: int) -> Seq<(Seq<char>, i64)>
    decreases k,
{
    if k <= 0 {
        Seq::empty()
    } else {
        match remote_row(ls[k - 1]) {
            Some(r) => remote_rows(ls, k - 1).push(r),
            None => remote_rows(ls, k - 1),
        }
    }
}

/// `(index, selector, oid, parent, subject)` of stash line `i`
/// (`%gd\0%H\0%P\0%s`); none without an oid field.
pub open spec fn stash_row(line: Seq<char>, i: int) -> Option<(int, Seq<char>, Seq<char>, Option<Seq<char>>, Seq<char>)> {
    let fs = splitn(line, '\0', 4);
    if fs.len() < 2 {
        None
    } else {
        let ps = words(piece(fs, 2));
        Some(
            (
                i,
                fs[0],
                fs[1],
                if ps.len() > 0 {
                    Some(ps[0])
                } else {
                    None
                },
                piece(fs, 3),
            ),
        )
    }
}

pub open spec fn stash_rows(ls: Seq<Seq<char>>, k: int) -> Seq<(int, Seq<char>, Seq<char>, Option<Seq<char>>, Seq<char>)>
    decreases k,
{
    if k <= 0 {
        Seq::empty()
    } else {
        match stash_row(ls[k - 1], k - 1) {
            Some(r) => stash_rows(ls, k - 1).push(r),
            None => stash_rows(ls, k - 1),
        }
    }
}

fn branch_row_of(line: &[char]) -> (r: Option<(Vec<char>, Option<Vec<char>>, i64)>)
    ensures
        match r {
            Some((n, u, t)) => branch_row(line@) == Some((n@, match u {
                Some(x) => Some(x@),
                None => None::<Seq<char>>,
            }, t)),
            None => branch_row(line@) is None,
        },
{
    let fs = splitn_of(line, '\0', 3);
    proof {
        crate::text::lemma_splitn_len(line@, '\0', 3);
        reveal_strlit("0");
    }
    let zero = chars_of("0");
    let name = crate::text::copy_chars(&fs[0]);
    let upstream = if fs.len() > 1 && fs[1].len() > 0 {
        Some(crate::text::copy_chars(&fs[1]))
    } else {
        None
    };
    let ts = match parse_i64_chars(&field_or(&fs, 2, &zero)) {
        Some(v) => v,
        None => 0,
    };
    if name.len() == 0 {
        None
    } else {
        Some((name, upstream, ts))
    }
}

/// The `rev-list --left-right --count <branch>...<upstream>` arguments for
/// every branch of the listing that has an upstream, in order.
pub fn wsl_upstream_count_args(branch_output: &str) -> (r: Vec<Vec<String>>)
    ensures
        ({
            let ls = lines(branch_output@);
            let rows = branch_rows(ls, ls.len() as int);
            &&& r@.len() == upstreams_before(rows, rows.len() as int)
        }),
{
    let ls = lines_of(&chars_of(branch_output));
    let ghost lv = views(ls@);
    let mut out: Vec<Vec<String>> = Vec::new();
    for k in 0..ls.len()
        invariant
            lv == views(ls@),
            lv == lines(branch_output@),
            out@.len() == upstreams_before(branch_rows(lv, k as int), branch_rows(lv, k as int).len() as int),
    {
        assert(lv[k as int] == ls@[k as int]@);
        let ghost rows0 = branch_rows(lv, k as int);
        match branch_row_of(&ls[k]) {
            Some((name, upstream, _)) => {
                let ghost rows1 = branch_rows(lv, k + 1);
                assert(rows1.drop_last() =~= rows0);
                proof {
                    lemma_upstreams_prefix(rows0, rows1, rows0.len() as int);
                }
                match upstream {
                    Some(u) => {
                        let mut range = crate::text::copy_chars(&name);
                        crate::text::push_str(&mut range, "...");
                        crate::text::push_all(&mut range, &u);
                        let mut a: Vec<String> = Vec::new();
                        a.push(String::from_str("rev-list"));
                        a.push(String::from_str("--left-right"));
                        a.push(String::from_str("--count"));
                        a.push(string_of(&range));
                        out.push(a);
                    },
                    None => {},
                }
            },
            None => {},
        }
    }
    out
}

fn ahead_behind_of(out: &[char]) -> (r: (usize, usize))
    ensures
        r == ahead_behind(out@),
{
    let ws = words_of(out);
    let empty: Vec<char> = Vec::new();
    let a = match parse_usize_chars(if ws.len() > 0 { &ws[0] } else { &empty }) {
        Some(v) => v,
        None => 0,
    };
    let b = match parse_usize_chars(if ws.len() > 1 { &ws[1] } else { &empty }) {
        Some(v) => v,
        None => 0,
    };
    (a, b)
}

fn local_branches(head_output: &str, branch_output: &str, counts: &Vec<String>) -> (r: Vec<BranchInfo>)
    ensures
        ({
            let ls = lines(branch_output@);
            let rows = branch_rows(ls, ls.len() as int);
            &&& r@.len() == rows.len()
            &&& forall|i: int| 0 <= i < rows.len() ==> local_branch(rows, i, trim(head_output@), string_views(counts@), #[trigger] r@[i])
        }),
{
    let head = trim_chars(&chars_of(head_output));
    let ls = lines_of(&chars_of(branch_output));
    let ghost lv = views(ls@);
    let ghost cv = string_views(counts@);
    let mut out: Vec<BranchInfo> = Vec::new();
    let mut used: usize = 0;
    for k in 0..ls.len()
        invariant
            lv == views(ls@),
            lv == lines(branch_output@),
            cv == string_views(counts@),
            head@ == trim(head_output@),
            out@.len() == branch_rows(lv, k as int).len(),
            used == upstreams_before(branch_rows(lv, k as int), out@.len() as int),
            used <= out@.len(),
            used <= k,
            forall|i: int| 0 <= i < out@.len() ==> local_branch(branch_rows(lv, k as int), i, head@, cv, #[trigger] out@[i]),
    {
        assert(lv[k as int] == ls@[k as int]@);
        let ghost rows0 = branch_rows(lv, k as int);
        match branch_row_of(&ls[k]) {
            Some((name, upstream, ts)) => {
                let ghost rows1 = branch_rows(lv, k + 1);
                assert(rows1.drop_last() =~= rows0);
                assert forall|i: int| 0 <= i <= rows0.len() implies upstreams_before(rows1, i) == upstreams_before(rows0, i) by {
                    lemma_upstreams_prefix(rows0, rows1, i);
                }
                let (ahead, behind) = match &upstream {
                    Some(_) => {
                        let c = if used < counts.len() {
                            chars_of(counts[used].as_str())
                        } else {
                            Vec::new()
                        };
                        assert(c@ == piece(cv, used as int));
                        ahead_behind_of(&c)
                    },
                    None => (0, 0),
                };
                let is_head = crate::text::chars_eq(&name, &head);
                let b = BranchInfo {
                    name: string_of(&name),
                    is_head,
                    upstream: match &upstream {
                        Some(u) => Some(string_of(u)),
                        None => None,
                    },
                    ahead,
                    behind,
                    last_commit_timestamp: ts,
                };
                let ghost before = out@;
                out.push(b);
                if upstream.is_some() {
                    used = used + 1;
                }
                proof {
                    assert forall|i: int| 0 <= i < out@.len() implies local_branch(rows1, i, head@, cv, #[trigger] out@[i]) by {
                        if i < before.len() {
                            assert(out@[i] == before[i]);
                            assert(rows1[i] == rows0[i]);
                        }
                    }
                }
            },
            None => {},
        }
    }
    out
}

proof fn lemma_upstreams_prefix(a: Seq<(Seq<char>, Option<Seq<char>>, i64)>, b: Seq<(Seq<char>, Option<Seq<char>>, i64)>, i: int)
    requires
        0 <= i <= a.len(),
        a.len() <= b.len(),
        forall|j: int| 0 <= j < a.len() ==> a[j] == b[j],
    ensures
        upstreams_before(a, i) == upstreams_before(b, i),
    decreases i,
{
    if i > 0 {
        lemma_upstreams_prefix(a, b, i - 1);
    }
}


fn remote_branches(remote_output: &str) -> (r: Vec<BranchInfo>)
    ensures
        ({
            let ls = lines(remote_output@);
            let rows = remote_rows(ls, ls.len() as int);
            &&& r@.len() == rows.len()
            &&& forall|i: int|
                0 <= i < rows.len() ==> {
                    let b = #[trigger] r@[i];
                    b.name@ == rows[i].0 && !b.is_head && b.upstream is None && b.ahead == 0 && b.behind == 0
                        && b.last_commit_timestamp == rows[i].1
                }
        }),
{
    let ls = lines_of(&chars_of(remote_output));
    let ghost lv = views(ls@);
    let zero = chars_of("0");
    proof {
        reveal_strlit("0");
    }
    let mut out: Vec<BranchInfo> = Vec::new();
    for k in 0..ls.len()
        invariant
            lv == views(ls@),
            lv == lines(remote_output@),
            zero@ == "0"@,
            out@.len() == remote_rows(lv, k as int).len(),
            forall|i: int|
                0 <= i < out@.len() ==> {
                    let b = #[trigger] out@[i];
                    let row = remote_rows(lv, k as int)[i];
                    b.name@ == row.0 && !b.is_head && b.upstream is None && b.ahead == 0 && b.behind == 0
                        && b.last_commit_timestamp == row.1
                },
    {
        assert(lv[k as int] == ls@[k as int]@);
        let fs = splitn_of(&ls[k], '\0', 2);
        proof {
            crate::text::lemma_splitn_len(ls@[k as int]@, '\0', 2);
        }
        let name = crate::text::copy_chars(&fs[0]);
        if !crate::text::has_suffix_str(&name, "/HEAD") {
            let ts = match parse_i64_chars(&field_or(&fs, 1, &zero)) {
                Some(v) => v,
                None => 0,
            };
            let ghost before = out@;
            out.push(
                BranchInfo {
                    name: string_of(&name),
                    is_head: false,
                    upstream: None,
                    ahead: 0,
                    behind: 0,
                    last_commit_timestamp: ts,
                },
            );
            proof {
                assert forall|i: int| 0 <= i < out@.len() implies {
                    let b = #[trigger] out@[i];
                    let row = remote_rows(lv, k + 1)[i];
                    b.name@ == row.0 && !b.is_head && b.upstream is None && b.ahead == 0 && b.behind == 0
                        && b.last_commit_timestamp == row.1
                } by {
                    if i < before.len() {
                        assert(out@[i] == before[i]);
                    }
                }
            }
        }
    }
    out
}

fn tag_labels(tags_output: &str) -> (r: Vec<RefLabel>)
    ensures
        label_views(r@) == lines(tags_output@).map_values(
            |n: Seq<char>| ("refs/tags/"@ + n, n, RefType::Tag, false, 0usize),
        ),
{
    let ls = lines_of(&chars_of(tags_output));
    let ghost lv = views(ls@);
    let mut out: Vec<RefLabel> = Vec::new();
    for k in 0..ls.len()
        invariant
            lv == views(ls@),
            lv == lines(tags_output@),
            label_views(out@) == lv.take(k as int).map_values(
                |n: Seq<char>| ("refs/tags/"@ + n, n, RefType::Tag, false, 0usize),
            ),
    {
        let mut full = chars_of("refs/tags/");
        crate::text::push_all(&mut full, &ls[k]);
        let ghost before = label_views(out@);
        out.push(
            RefLabel {
                name: string_of(&full),
                short_name: string_of(&ls[k]),
                ref_type: RefType::Tag,
                is_head: false,
                color_index: 0,
            },
        );
        assert(lv[k as int] == ls@[k as int]@);
        assert(label_views(out@) =~= before.push(out@[k as int]@));
        assert(full@ == "refs/tags/"@ + lv[k as int]);
        assert(lv.take(k + 1) =~= lv.take(k as int).push(lv[k as int]));
        assert(label_views(out@) =~= lv.take(k + 1).map_values(
            |n: Seq<char>| ("refs/tags/"@ + n, n, RefType::Tag, false, 0usize),
        ));
    }
    assert(lv.take(ls@.len() as int) =~= lv);
    out
}

/// Whether a stash entry matches its row.
pub open spec fn stash_entry_of(e: StashEntry, row: (int, Seq<char>, Seq<char>, Option<Seq<char>>, Seq<char>)) -> bool {
    e.index == row.0 && e.short_name@ == row.1 && e.oid@ == row.2 && opt_seq(e.parent_oid) == row.3 && e.name@ == row.4
}

fn stash_entries(stash_output: &str) -> (r: Vec<StashEntry>)
    ensures
        ({
            let ls = lines(stash_output@);
            let rows = stash_rows(ls, ls.len() as int);
            &&& r@.len() == rows.len()
            &&& forall|i: int| 0 <= i < rows.len() ==> stash_entry_of(#[trigger] r@[i], rows[i])
        }),
{
    let ls = lines_of(&chars_of(stash_output));
    let ghost lv = views(ls@);
    let empty: Vec<char> = Vec::new();
    let mut out: Vec<StashEntry> = Vec::new();
    for k in 0..ls.len()
        invariant
            lv == views(ls@),
            lv == lines(stash_output@),
            empty@ == Seq::<char>::empty(),
            out@.len() == stash_rows(lv, k as int).len(),
            forall|i: int| 0 <= i < out@.len() ==> stash_entry_of(#[trigger] out@[i], stash_rows(lv, k as int)[i]),
    {
        assert(lv[k as int] == ls@[k as int]@);
        let fs = splitn_of(&ls[k], '\0', 4);
        if fs.len() >= 2 {
            let ps = words_of(&field_or(&fs, 2, &empty));
            let parent = if ps.len() > 0 {
                Some(string_of(&ps[0]))
            } else {
                None
            };
            let e = StashEntry {
                index: k,
                name: string_of(&field_or(&fs, 3, &empty)),
                short_name: string_of(&fs[0]),
                oid: string_of(&fs[1]),
                parent_oid: parent,
            };
            let ghost before = out@;
            proof {
                let fv = views(fs@);
                let row = stash_row(lv[k as int], k as int);
                assert(fv == splitn(lv[k as int], '\0', 4));
                assert(fv.len() == fs@.len());
                assert forall|j: int| 0 <= j < fv.len() implies fv[j] == fs@[j]@ by {}
                assert(piece(fv, 2) == (if 2 < fs@.len() { fs@[2]@ } else { empty@ }));
                assert(piece(fv, 3) == (if 3 < fs@.len() { fs@[3]@ } else { empty@ }));
                assert(row matches Some(x) && stash_entry_of(e, x));
            }
            out.push(e);
            proof {
                assert forall|i: int| 0 <= i < out@.len() implies stash_entry_of(#[trigger] out@[i], stash_rows(lv, k + 1)[i]) by {
                    if i < before.len() {
                        assert(out@[i] == before[i]);
                    }
                }
            }
        }
    }
    out
}

/// Branches, remote branches, tags and stashes from what `branch
/// --show-current`, `for-each-ref` over `refs/heads` and `refs/remotes`,
/// `tag --list` and `stash list --format=%gd%x00%H%x00%P%x00%s` printed
/// (empty text for the head and stash commands when they failed), with
/// `counts` holding what the `rev-list` commands of
/// [`wsl_upstream_count_args`] printed, in order (empty text for one that
/// failed).
pub fn wsl_refs(
    head_output: &str,
    branch_output: &str,
    counts: &Vec<String>,
    remote_output: &str,
    tags_output: &str,
    stash_output: &str,
) -> (r: RefsResponse)
    ensures
        ({
            let ls = lines(branch_output@);
            let rows = branch_rows(ls, ls.len() as int);
            &&& r.local@.len() == rows.len()
            &&& forall|i: int| 0 <= i < rows.len() ==> local_branch(rows, i, trim(head_output@), string_views(counts@), #[trigger] r.local@[i])
        }),
        ({
            let ls = lines(remote_output@);
            let rows = remote_rows(ls, ls.len() as int);
            &&& r.remote@.len() == rows.len()
            &&& forall|i: int|
                0 <= i < rows.len() ==> {
                    let b = #[trigger] r.remote@[i];
                    b.name@ == rows[i].0 && !b.is_head && b.upstream is None && b.ahead == 0 && b.behind == 0
                        && b.last_commit_timestamp == rows[i].1
                }
        }),
        label_views(r.tags@) == lines(tags_output@).map_values(
            |n: Seq<char>| ("refs/tags/"@ + n, n, RefType::Tag, false, 0usize),
        ),
        ({
            let ls = lines(stash_output@);
            let rows = stash_rows(ls, ls.len() as int);
            &&& r.stashes@.len() == rows.len()
            &&& forall|i: int| 0 <= i < rows.len() ==> stash_entry_of(#[trigger] r.stashes@[i], rows[i])
        }),
{
    RefsResponse {
        local: local_branches(head_output, branch_output, counts),
        remote: remote_branches(remote_output),
        tags: tag_labels(tags_output),
        stashes: stash_entries(stash_output),
    }
}


// ---------------------------------------------------------------------------
// The operation in progress
// ---------------------------------------------------------------------------

/// The files of a rebase directory (`rebase-merge` or `rebase-apply`), as
/// read: `None` when a file could not be read.
#[derive(Debug, Clone)]
pub struct RebaseFiles {
    pub head_name: Option<String>,
    pub msgnum: Option<String>,
    pub onto: Option<String>,
    pub end: Option<String>,
    pub message: Option<String>,
}

/// What deciding the operation in progress looks at: what `ls-files -u`
/// printed (empty text when it failed); what `branch --show-current`
/// printed; the two rebase directories; what `rev-parse -q --verify`
/// printed for `CHERRY_PICK_HEAD`, `REVERT_HEAD` and `MERGE_HEAD`; the merge
/// message; and what `for-each-ref --format=%(refname:short)%00%(objectname)
/// refs/heads` printed. `None` marks a command that failed or a file that
/// could not be read.
#[derive(Debug, Clone)]
pub struct OperationFacts {
    pub unmerged: String,
    pub current_branch: Option<String>,
    pub rebase_merge: RebaseFiles,
    pub rebase_apply: RebaseFiles,
    pub cherry_pick_head: Option<String>,
    pub revert_head: Option<String>,
    pub merge_head: Option<String>,
    pub merge_msg: Option<String>,
    pub branch_heads: Option<String>,
}

/// A git file's value: its trimmed text, when it was read and is not blank.
pub open spec fn file_value(read: Option<String>) -> Option<Seq<char>> {
    match read {
        Some(t) => if trim(t@).len() > 0 {
            Some(trim(t@))
        } else {
            None
        },
        None => None,
    }
}

/// Whether a ref resolved (`rev-parse -q --verify` printed something).
pub open spec fn ref_exists(out: Option<String>) -> bool {
    match out {
        Some(t) => trim(t@).len() > 0,
        None => false,
    }
}

/// The rebase directory in use, if any: `rebase-merge` first.
pub open spec fn rebase_dir(f: OperationFacts) -> Option<RebaseFiles> {
    if file_value(f.rebase_merge.head_name) is Some || file_value(f.rebase_merge.msgnum) is Some {
        Some(f.rebase_merge)
    } else if file_value(f.rebase_apply.head_name) is Some || file_value(f.rebase_apply.msgnum) is Some {
        Some(f.rebase_apply)
    } else {
        None
    }
}

/// The branch at commit `oid` among the first `k` lines of the heads
/// listing (the first match), if any.
pub open spec fn branch_at(ls: Seq<Seq<char>>, oid: Seq<char>, k: int) -> Option<Seq<char>>
    decreases k,
{
    if k <= 0 {
        None
    } else {
        match branch_at(ls, oid, k - 1) {
            Some(n) => Some(n),
            None => {
                let fs = splitn(ls[k - 1], '\0', 2);
                if piece(fs, 1) == oid {
                    Some(piece(fs, 0))
                } else {
                    None
                }
            },
        }
    }
}

/// The name of the branch at `oid`, or its short id; none when the heads
/// could not be listed.
pub open spec fn branch_or_short(heads: Option<String>, oid: Seq<char>) -> Option<Seq<char>> {
    match heads {
        None => None,
        Some(out) => {
            let ls = lines(out@);
            match branch_at(ls, oid, ls.len() as int) {
                Some(n) => Some(n),
                None => Some(prefix7(oid)),
            }
        },
    }
}

/// The branch git's merge message names (`Merge branch '<name>'...`).
pub open spec fn merge_source(msg: Seq<char>) -> Option<Seq<char>> {
    let p = "Merge branch '"@;
    if crate::text::starts_with(msg, p) {
        match crate::text::first_index(msg.skip(p.len() as int), '\'') {
            Some(j) => Some(msg.skip(p.len() as int).take(j)),
            None => None,
        }
    } else {
        None
    }
}

/// The operation in progress, from the facts: a rebase (its branch, the
/// branch it goes onto, how far it is, its message), a cherry-pick, a revert,
/// a merge (when files are unmerged or `MERGE_HEAD` exists), or none.
pub open spec fn operation_of(f: OperationFacts) -> (OperationType, Option<Seq<char>>, Option<Seq<char>>, Option<Seq<char>>, Option<Seq<char>>) {
    let target = file_value(f.current_branch);
    match rebase_dir(f) {
        Some(d) => {
            let head = match file_value(d.head_name) {
                Some(h) => Some(crate::text::remove_all(h, "refs/heads/"@)),
                None => None,
            };
            let onto = match file_value(d.onto) {
                Some(o) => branch_or_short(f.branch_heads, o),
                None => None,
            };
            let progress = match (file_value(d.msgnum), file_value(d.end)) {
                (Some(m), Some(e)) => Some(m + "/"@ + e),
                _ => None,
            };
            (OperationType::Rebase, head, if onto is Some { onto } else { target }, progress, file_value(d.message))
        },
        None => if ref_exists(f.cherry_pick_head) {
            (OperationType::CherryPick, None, target, None, None)
        } else if ref_exists(f.revert_head) {
            (OperationType::Revert, None, target, None, None)
        } else if trim(f.unmerged@).len() > 0 || ref_exists(f.merge_head) {
            (
                OperationType::Merge,
                match f.merge_msg {
                    Some(m) => merge_source(m@),
                    None => None,
                },
                target,
                None,
                None,
            )
        } else {
            (OperationType::Idle, None, target, None, None)
        },
    }
}

proof fn lemma_branch_at_stable(ls: Seq<Seq<char>>, oid: Seq<char>, k: int, m: int)
    requires
        k <= m,
        branch_at(ls, oid, k) is Some,
    ensures
        branch_at(ls, oid, m) == branch_at(ls, oid, k),
    decreases m - k,
{
    if k < m {
        lemma_branch_at_stable(ls, oid, k, m - 1);
    }
}

fn file_value_of(read: &Option<String>) -> (r: Option<Vec<char>>)
    ensures
        match r {
            Some(v) => file_value(*read) == Some(v@),
            None => file_value(*read) is None,
        },
{
    match read {
        Some(t) => {
            let v = trim_chars(&chars_of(t.as_str()));
            if v.len() > 0 {
                Some(v)
            } else {
                None
            }
        },
        None => None,
    }
}

fn ref_exists_of(out: &Option<String>) -> (r: bool)
    ensures
        r == ref_exists(*out),
{
    match out {
        Some(t) => !crate::text::is_blank(&chars_of(t.as_str())),
        None => false,
    }
}

fn opt_string(v: Option<Vec<char>>) -> (r: Option<String>)
    ensures
        opt_seq(r) == match v {
            Some(x) => Some(x@),
            None => None::<Seq<char>>,
        },
{
    match v {
        Some(x) => Some(string_of(&x)),
        None => None,
    }
}

fn branch_or_short_of(heads: &Option<String>, oid: &Vec<char>) -> (r: Option<String>)
    ensures
        opt_seq(r) == branch_or_short(*heads, oid@),
{
    match heads {
        None => None,
        Some(out) => {
            let ls = lines_of(&chars_of(out.as_str()));
            let ghost lv = views(ls@);
            for k in 0..ls.len()
                invariant
                    lv == views(ls@),
                    lv == lines(out@),
                    *heads == Some(*out),
                    branch_at(lv, oid@, k as int) is None,
            {
                assert(lv[k as int] == ls@[k as int]@);
                let fs = splitn_of(&ls[k], '\0', 2);
                proof {
                    crate::text::lemma_splitn_len(ls@[k as int]@, '\0', 2);
                }
                let empty: Vec<char> = Vec::new();
                let object = field_or(&fs, 1, &empty);
                if crate::text::chars_eq(&object, oid) {
                    assert(branch_at(lv, oid@, k + 1) == Some(fs@[0]@));
                    proof {
                        assert(lv.len() == ls@.len());
                        lemma_branch_at_stable(lv, oid@, k + 1, lv.len() as int);
                        assert(branch_or_short(*heads, oid@) == Some(fs@[0]@));
                    }
                    return Some(string_of(&fs[0]));
                }
            }
            let s = string_of(oid);
            Some(short_oid(s.as_str()))
        },
    }
}

fn merge_source_of(msg: &str) -> (r: Option<String>)
    ensures
        opt_seq(r) == merge_source(msg@),
{
    let cs = chars_of(msg);
    proof {
        reveal_strlit("Merge branch '");
    }
    if !crate::text::has_prefix_str(&cs, "Merge branch '") {
        return None;
    }
    let rest = crate::text::slice_of(&cs, 14, cs.len());
    assert(rest@ =~= msg@.skip(14));
    match crate::text::find_char(&rest, '\'') {
        Some(j) => {
            proof {
                crate::text::lemma_first_index(rest@, '\'');
            }
            let name = crate::text::slice_of(&rest, 0, j);
            assert(name@ =~= rest@.take(j as int));
            Some(string_of(&name))
        },
        None => None,
    }
}

/// The operation in progress in a WSL repository, decided from what was
/// read (see [`OperationFacts`]). Colour indices are left to the caller.
pub fn wsl_operation_state(facts: &OperationFacts) -> (r: OperationInfo)
    ensures
        ({
            let (t, source, target, progress, message) = operation_of(*facts);
            &&& r.op_type == t
            &&& opt_seq(r.source_branch) == source
            &&& opt_seq(r.target_branch) == target
            &&& opt_seq(r.progress) == progress
            &&& opt_seq(r.rebase_message) == message
            &&& r.source_color_index is None
            &&& r.target_color_index is None
        }),
{
    let target_branch = opt_string(file_value_of(&facts.current_branch));
    let rm = &facts.rebase_merge;
    let ra = &facts.rebase_apply;
    let dir: Option<&RebaseFiles> = if file_value_of(&rm.head_name).is_some() || file_value_of(&rm.msgnum).is_some() {
        Some(rm)
    } else if file_value_of(&ra.head_name).is_some() || file_value_of(&ra.msgnum).is_some() {
        Some(ra)
    } else {
        None
    };
    match dir {
        Some(d) => {
            let head = match file_value_of(&d.head_name) {
                Some(h) => Some(string_of(&crate::text::remove_all_of(&h, "refs/heads/"))),
                None => None,
            };
            let onto = match file_value_of(&d.onto) {
                Some(o) => branch_or_short_of(&facts.branch_heads, &o),
                None => None,
            };
            let progress = match (file_value_of(&d.msgnum), file_value_of(&d.end)) {
                (Some(m), Some(e)) => {
                    let mut v = m;
                    crate::text::push_str(&mut v, "/");
                    crate::text::push_all(&mut v, &e);
                    Some(string_of(&v))
                },
                _ => None,
            };
            let message = opt_string(file_value_of(&d.message));
            let target = match onto {
                Some(x) => Some(x),
                None => target_branch,
            };
            OperationInfo {
                op_type: OperationType::Rebase,
                source_branch: head,
                target_branch: target,
                progress,
                source_color_index: None,
                target_color_index: None,
                rebase_message: message,
            }
        },
        None => {
            if ref_exists_of(&facts.cherry_pick_head) {
                OperationInfo {
                    op_type: OperationType::CherryPick,
                    source_branch: None,
                    target_branch,
                    progress: None,
                    source_color_index: None,
                    target_color_index: None,
                    rebase_message: None,
                }
            } else if ref_exists_of(&facts.revert_head) {
                OperationInfo {
                    op_type: OperationType::Revert,
                    source_branch: None,
                    target_branch,
                    progress: None,
                    source_color_index: None,
                    target_color_index: None,
                    rebase_message: None,
                }
            } else if !crate::text::is_blank(&chars_of(facts.unmerged.as_str())) || ref_exists_of(&facts.merge_head) {
                let source = match &facts.merge_msg {
                    Some(m) => merge_source_of(m.as_str()),
                    None => None,
                };
                OperationInfo {
                    op_type: OperationType::Merge,
                    source_branch: source,
                    target_branch,
                    progress: None,
                    source_color_index: None,
                    target_color_index: None,
                    rebase_message: None,
                }
            } else {
                OperationInfo {
                    op_type: OperationType::Idle,
                    source_branch: None,
                    target_branch,
                    progress: None,
                    source_color_index: None,
                    target_color_index: None,
                    rebase_message: None,
                }
            }
        },
    }
}


/// What a read command printed, or `git_read_error` with git's trimmed error
/// output when it failed.
pub fn git_read_output(output: &CommandOutput) -> (r: Result<String, TrunkError>)
    ensures
        r is Ok <==> output.success,
        r matches Ok(s) ==> s@ == stdout_text(*output),
        r matches Err(e) ==> e.code@ == "git_read_error"@ && e.message@ == trim(stderr_text(*output)),
{
    if output.success {
        Ok(stdout_string(output))
    } else {
        let t = trimmed_chars(stderr_string(output).as_str());
        Err(TrunkError::from_chars("git_read_error", &t))
    }
}

} // verus!
