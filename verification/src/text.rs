//! Character-sequence primitives shared by the parsers and renderers.
//!
//! Text is handled as `Vec<char>` inside the library; every primitive is
//! specified over `Seq<char>`.
use vstd::prelude::*;

verus! {

// ---------------------------------------------------------------------------
// Conversions
// ---------------------------------------------------------------------------

/// The characters of a string slice, in order.
pub fn chars_of(s: &str) -> (v: Vec<char>)
    ensures
        v@ == s@,
{
    broadcast use vstd::string::axiom_spec_iter;

    let mut v: Vec<char> = Vec::new();
    for c in it: s.chars()
        invariant
            v@ == it.seq().take(it.index() as int),
            it.seq() == s@,
    {
        v.push(c);
    }
    v
}

/// Builds an owned string from a character slice (`String::from_iter`).
#[verifier::external_body]
pub(crate) fn string_of(v: &[char]) -> (s: String)
    ensures
        s@ == v@,
{
    String::from_iter(v.iter())
}

/// An owned copy of a character slice.
pub fn copy_chars(v: &[char]) -> (r: Vec<char>)
    ensures
        r@ == v@,
{
    let mut r: Vec<char> = Vec::new();
    for i in 0..v.len()
        invariant
            r@ == v@.take(i as int),
    {
        r.push(v[i]);
        assert(r@ =~= v@.take(i + 1));
    }
    assert(r@ =~= v@);
    r
}

/// Appends `src` to the end of `dst`.
pub fn push_all(dst: &mut Vec<char>, src: &[char])
    ensures
        final(dst)@ == old(dst)@ + src@,
{
    let ghost start = dst@;
    for i in 0..src.len()
        invariant
            dst@ == start + src@.take(i as int),
    {
        dst.push(src[i]);
        assert(dst@ =~= start + src@.take(i + 1));
    }
    assert(src@.take(src@.len() as int) =~= src@);
}

/// Appends the characters of a string slice to `dst`.
pub fn push_str(dst: &mut Vec<char>, s: &str)
    ensures
        final(dst)@ == old(dst)@ + s@,
{
    let cs = chars_of(s);
    push_all(dst, &cs);
}

/// The characters `v[start..end]`.
pub fn slice_of(v: &[char], start: usize, end: usize) -> (r: Vec<char>)
    requires
        start <= end <= v@.len(),
    ensures
        r@ == v@.subrange(start as int, end as int),
{
    let mut r: Vec<char> = Vec::new();
    let mut i = start;
    while i < end
        invariant
            start <= i <= end <= v@.len(),
            r@ == v@.subrange(start as int, i as int),
        decreases end - i,
    {
        r.push(v[i]);
        i = i + 1;
        assert(r@ =~= v@.subrange(start as int, i as int));
    }
    r
}

/// Character-wise equality of two slices.
pub fn chars_eq(a: &[char], b: &[char]) -> (r: bool)
    ensures
        r == (a@ == b@),
{
    if a.len() != b.len() {
        return false;
    }
    for i in 0..a.len()
        invariant
            a@.len() == b@.len(),
            forall|j: int| 0 <= j < i ==> a@[j] == b@[j],
    {
        if a[i] != b[i] {
            return false;
        }
    }
    assert(a@ =~= b@);
    true
}

// ---------------------------------------------------------------------------
// Prefixes, suffixes, search
// ---------------------------------------------------------------------------

pub open spec fn starts_with(s: Seq<char>, p: Seq<char>) -> bool {
    p.len() <= s.len() && s.take(p.len() as int) == p
}

pub open spec fn ends_with(s: Seq<char>, p: Seq<char>) -> bool {
    p.len() <= s.len() && s.skip(s.len() - p.len()) == p
}

/// Whether `s` begins with `p`.
pub fn has_prefix(s: &[char], p: &[char]) -> (r: bool)
    ensures
        r == starts_with(s@, p@),
{
    if p.len() > s.len() {
        return false;
    }
    for i in 0..p.len()
        invariant
            p@.len() <= s@.len(),
            forall|j: int| 0 <= j < i ==> s@[j] == p@[j],
    {
        if s[i] != p[i] {
            assert(s@.take(p@.len() as int)[i as int] != p@[i as int]);
            return false;
        }
    }
    assert(s@.take(p@.len() as int) =~= p@);
    true
}

/// Whether `s` begins with the characters of `p`.
pub fn has_prefix_str(s: &[char], p: &str) -> (r: bool)
    ensures
        r == starts_with(s@, p@),
{
    let pc = chars_of(p);
    has_prefix(s, &pc)
}

/// Whether `s` ends with `p`.
pub fn has_suffix(s: &[char], p: &[char]) -> (r: bool)
    ensures
        r == ends_with(s@, p@),
{
    if p.len() > s.len() {
        return false;
    }
    let n = s.len();
    let off = n - p.len();
    let mut i: usize = 0;
    while i < p.len()
        invariant
            p@.len() <= s@.len(),
            n == s@.len(),
            off + p@.len() == n,
            i <= p@.len(),
            forall|j: int| 0 <= j < i ==> s@[off + j] == p@[j],
        decreases p.len() - i,
    {
        if s[off + i] != p[i] {
            assert(s@.skip(off as int)[i as int] != p@[i as int]);
            return false;
        }
        i = i + 1;
    }
    assert(s@.skip(off as int) =~= p@);
    true
}

/// Whether `s` ends with the characters of `p`.
pub fn has_suffix_str(s: &[char], p: &str) -> (r: bool)
    ensures
        r == ends_with(s@, p@),
{
    let pc = chars_of(p);
    has_suffix(s, &pc)
}

/// The first index at which `c` occurs in `s`, if any.
pub open spec fn first_index(s: Seq<char>, c: char) -> Option<int>
    decreases s.len(),
{
    if s.len() == 0 {
        None
    } else {
        match first_index(s.drop_last(), c) {
            Some(i) => Some(i),
            None => if s.last() == c {
                Some(s.len() - 1)
            } else {
                None
            },
        }
    }
}

pub proof fn lemma_first_index(s: Seq<char>, c: char)
    ensures
        first_index(s, c) matches Some(i) ==> 0 <= i < s.len() && s[i] == c && forall|j: int|
            0 <= j < i ==> s[j] != c,
        first_index(s, c) is None ==> forall|j: int| 0 <= j < s.len() ==> s[j] != c,
    decreases s.len(),
{
    if s.len() > 0 {
        lemma_first_index(s.drop_last(), c);
        assert forall|j: int| 0 <= j < s.len() - 1 implies s.drop_last()[j] == s[j] by {}
    }
}

pub proof fn lemma_first_index_char(s: Seq<char>, c: char, i: int)
    requires
        0 <= i < s.len(),
        s[i] == c,
        forall|j: int| 0 <= j < i ==> s[j] != c,
    ensures
        first_index(s, c) == Some(i),
    decreases s.len(),
{
    lemma_first_index(s, c);
    if i < s.len() - 1 {
        lemma_first_index_char(s.drop_last(), c, i);
    } else {
        lemma_first_index(s.drop_last(), c);
    }
}

pub proof fn lemma_first_index_none(s: Seq<char>, c: char)
    requires
        forall|j: int| 0 <= j < s.len() ==> s[j] != c,
    ensures
        first_index(s, c) is None,
{
    lemma_first_index(s, c);
}

/// The first index of `c` in `s`.
pub fn find_char(s: &[char], c: char) -> (r: Option<usize>)
    ensures
        match r {
            Some(i) => first_index(s@, c) == Some(i as int),
            None => first_index(s@, c) is None,
        },
{
    for i in 0..s.len()
        invariant
            forall|j: int| 0 <= j < i ==> s@[j] != c,
    {
        if s[i] == c {
            proof {
                lemma_first_index_char(s@, c, i as int);
            }
            return Some(i);
        }
    }
    proof {
        lemma_first_index_none(s@, c);
    }
    None
}

/// Whether `c` occurs in `s`.
pub fn contains_char(s: &[char], c: char) -> (r: bool)
    ensures
        r == s@.contains(c),
{
    let f = find_char(s, c);
    proof {
        lemma_first_index(s@, c);
    }
    match f {
        Some(i) => {
            assert(s@[i as int] == c);
            true
        },
        None => false,
    }
}

// ---------------------------------------------------------------------------
// Splitting
// ---------------------------------------------------------------------------

/// `s.split(sep)`: the pieces between occurrences of `sep`, always at least one.
pub open spec fn split(s: Seq<char>, sep: char) -> Seq<Seq<char>>
    decreases s.len(),
{
    if s.len() == 0 {
        seq![Seq::<char>::empty()]
    } else {
        let prev = split(s.drop_last(), sep);
        if s.last() == sep {
            prev.push(Seq::<char>::empty())
        } else {
            prev.update(prev.len() - 1, prev.last().push(s.last()))
        }
    }
}

pub proof fn lemma_split_len(s: Seq<char>, sep: char)
    ensures
        split(s, sep).len() >= 1,
    decreases s.len(),
{
    if s.len() > 0 {
        lemma_split_len(s.drop_last(), sep);
    }
}

/// The views of a sequence of character vectors.
pub open spec fn views(v: Seq<Vec<char>>) -> Seq<Seq<char>> {
    v.map_values(|f: Vec<char>| f@)
}

/// `s.split(sep)` as owned pieces.
pub fn split_char(s: &[char], sep: char) -> (r: Vec<Vec<char>>)
    ensures
        views(r@) == split(s@, sep),
        r@.len() >= 1,
{
    let mut out: Vec<Vec<char>> = Vec::new();
    let mut cur: Vec<char> = Vec::new();
    for i in 0..s.len()
        invariant
            views(out@).push(cur@) == split(s@.take(i as int), sep),
    {
        let c = s[i];
        proof {
            assert(s@.take(i + 1).drop_last() =~= s@.take(i as int));
            lemma_split_len(s@.take(i as int), sep);
        }
        if c == sep {
            let done = cur;
            out.push(done);
            cur = Vec::new();
            assert(views(out@).push(cur@) =~= split(s@.take(i + 1), sep));
        } else {
            let ghost before = views(out@);
            cur.push(c);
            assert(views(out@).push(cur@) =~= split(s@.take(i + 1), sep));
        }
    }
    assert(s@.take(s@.len() as int) =~= s@);
    out.push(cur);
    out
}

/// Strips one trailing `'\r'`.
pub open spec fn strip_cr(l: Seq<char>) -> Seq<char> {
    if l.len() > 0 && l.last() == '\r' {
        l.drop_last()
    } else {
        l
    }
}

/// `str::lines`: pieces between `'\n'`; a `'\r'` directly before a `'\n'` is
/// dropped; a final empty piece (after a trailing newline) is not a line.
pub open spec fn lines(s: Seq<char>) -> Seq<Seq<char>> {
    let parts = split(s, '\n');
    let n = parts.len();
    let body = Seq::new((n - 1) as nat, |i: int| strip_cr(parts[i]));
    if n >= 1 && parts[n - 1].len() > 0 {
        body.push(parts[n - 1])
    } else {
        body
    }
}

/// `str::lines` on a character slice.
pub fn lines_of(s: &[char]) -> (r: Vec<Vec<char>>)
    ensures
        views(r@) == lines(s@),
{
    let parts = split_char(s, '\n');
    let n = parts.len();
    let mut out: Vec<Vec<char>> = Vec::new();
    let mut i: usize = 0;
    while i + 1 < n
        invariant
            n == parts@.len(),
            n >= 1,
            i < n,
            views(parts@) == split(s@, '\n'),
            views(out@) == Seq::new(i as nat, |k: int| strip_cr(split(s@, '\n')[k])),
        decreases n - i,
    {
        let p = &parts[i];
        let l = p.len();
        let line = if l > 0 && p[l - 1] == '\r' {
            slice_of(p, 0, l - 1)
        } else {
            copy_chars(p)
        };
        proof {
            assert(split(s@, '\n')[i as int] == parts@[i as int]@);
            if l > 0 && p@[l - 1] == '\r' {
                assert(p@.subrange(0, l - 1) =~= p@.drop_last());
            }
            assert(line@ == strip_cr(split(s@, '\n')[i as int]));
        }
        let ghost before = views(out@);
        out.push(line);
        assert(views(out@) =~= before.push(line@));
        i = i + 1;
        assert(views(out@) =~= Seq::new(i as nat, |k: int| strip_cr(split(s@, '\n')[k])));
    }
    let last = &parts[n - 1];
    assert(split(s@, '\n')[n - 1] == parts@[n - 1]@);
    if last.len() > 0 {
        let l = copy_chars(last);
        out.push(l);
        assert(views(out@) =~= lines(s@));
    } else {
        assert(views(out@) =~= lines(s@));
    }
    out
}

/// `str::split_inclusive('\n')`: the lines with their `'\n'` kept; a last
/// piece without `'\n'` counts when it is not empty.
pub open spec fn lines_incl(s: Seq<char>) -> Seq<Seq<char>> {
    let parts = split(s, '\n');
    let n = parts.len();
    let body = Seq::new((n - 1) as nat, |i: int| parts[i].push('\n'));
    if n >= 1 && parts[n - 1].len() > 0 {
        body.push(parts[n - 1])
    } else {
        body
    }
}

/// `str::split_inclusive('\n')` on a character slice.
pub fn lines_incl_of(s: &[char]) -> (r: Vec<Vec<char>>)
    ensures
        views(r@) == lines_incl(s@),
{
    let mut parts = split_char(s, '\n');
    let n = parts.len();
    let ghost pv = views(parts@);
    let mut out: Vec<Vec<char>> = Vec::new();
    let mut i: usize = 0;
    while i + 1 < n
        invariant
            n == parts@.len(),
            n >= 1,
            i < n,
            pv == split(s@, '\n'),
            views(parts@) == pv,
            views(out@) == Seq::new(i as nat, |k: int| split(s@, '\n')[k].push('\n')),
        decreases n - i,
    {
        let mut line = copy_chars(&parts[i]);
        assert(line@ == pv[i as int]);
        line.push('\n');
        let ghost before = views(out@);
        out.push(line);
        assert(views(out@) =~= before.push(line@));
        i = i + 1;
        assert(views(out@) =~= Seq::new(i as nat, |k: int| split(s@, '\n')[k].push('\n')));
    }
    let last = &parts[n - 1];
    assert(pv[n - 1] == parts@[n - 1]@);
    if last.len() > 0 {
        let l = copy_chars(last);
        out.push(l);
        assert(views(out@) =~= lines_incl(s@));
    } else {
        assert(views(out@) =~= lines_incl(s@));
    }
    out
}

/// `s.splitn(n, c)` for `n >= 1`: at most `n` pieces, the last one holding
/// the rest of `s`, separators included.
pub open spec fn splitn(s: Seq<char>, c: char, n: nat) -> Seq<Seq<char>>
    decreases n,
{
    if n <= 1 {
        seq![s]
    } else {
        match first_index(s, c) {
            None => seq![s],
            Some(i) => seq![s.take(i)] + splitn(s.skip(i + 1), c, (n - 1) as nat),
        }
    }
}

pub proof fn lemma_splitn_len(s: Seq<char>, c: char, n: nat)
    requires
        n >= 1,
    ensures
        1 <= splitn(s, c, n).len() <= n,
    decreases n,
{
    if n > 1 {
        lemma_first_index(s, c);
        if let Some(i) = first_index(s, c) {
            lemma_splitn_len(s.skip(i + 1), c, (n - 1) as nat);
        }
    }
}

/// Piece `k` of a split, or the empty string when there are fewer pieces
/// (`next().unwrap_or("")`).
pub open spec fn piece(fs: Seq<Seq<char>>, k: int) -> Seq<char> {
    if 0 <= k < fs.len() {
        fs[k]
    } else {
        Seq::empty()
    }
}

/// `s.splitn(n, c)` on a character slice.
pub fn splitn_of(s: &[char], c: char, n: usize) -> (r: Vec<Vec<char>>)
    requires
        n >= 1,
    ensures
        views(r@) == splitn(s@, c, n as nat),
{
    let len = s.len();
    let mut out: Vec<Vec<char>> = Vec::new();
    let mut start: usize = 0;
    let mut done = false;
    assert(s@.skip(0) =~= s@);
    assert(views(out@) =~= Seq::<Seq<char>>::empty());
    assert(views(out@) + splitn(s@, c, n as nat) =~= splitn(s@, c, n as nat));
    while !done && out.len() + 1 < n
        invariant
            len == s@.len(),
            start <= len,
            out@.len() < n,
            views(out@) + splitn(s@.skip(start as int), c, (n - out@.len()) as nat) == splitn(s@, c, n as nat),
            done ==> first_index(s@.skip(start as int), c) is None,
        decreases n - out@.len(), (if done { 0int } else { 1int }),
    {
        let rest = slice_of(s, start, len);
        assert(rest@ =~= s@.skip(start as int));
        proof {
            lemma_first_index(rest@, c);
        }
        match find_char(&rest, c) {
            None => {
                done = true;
            },
            Some(j) => {
                let piece = slice_of(&rest, 0, j);
                assert(piece@ =~= rest@.take(j as int));
                let ghost before = views(out@);
                out.push(piece);
                assert(views(out@) =~= before.push(rest@.take(j as int)));
                assert(rest@.skip(j + 1) =~= s@.skip(start + j + 1));
                assert(views(out@) + splitn(s@.skip(start + j + 1), c, (n - out@.len()) as nat) =~= before + splitn(
                    s@.skip(start as int),
                    c,
                    (n - before.len()) as nat,
                ));
                start = start + j + 1;
            },
        }
    }
    let last = slice_of(s, start, len);
    assert(last@ =~= s@.skip(start as int));
    let ghost before = views(out@);
    assert(splitn(s@.skip(start as int), c, (n - before.len()) as nat) =~= seq![s@.skip(start as int)]);
    out.push(last);
    assert(views(out@) =~= before.push(s@.skip(start as int)));
    out
}

/// `s` with every leading and trailing `c` removed (`trim_matches(c)`).
pub open spec fn trim_char(s: Seq<char>, c: char) -> Seq<char>
    decreases s.len(),
{
    if s.len() > 0 && s[0] == c {
        trim_char(s.skip(1), c)
    } else if s.len() > 0 && s.last() == c {
        trim_char(s.drop_last(), c)
    } else {
        s
    }
}

/// `s.trim_matches(c)` on a character slice.
pub fn trim_char_of(s: &[char], c: char) -> (r: Vec<char>)
    ensures
        r@ == trim_char(s@, c),
{
    let mut i: usize = 0;
    let mut j: usize = s.len();
    assert(s@.subrange(0, j as int) =~= s@);
    while i < j && (s[i] == c || s[j - 1] == c)
        invariant
            i <= j <= s@.len(),
            trim_char(s@.subrange(i as int, j as int), c) == trim_char(s@, c),
        decreases j - i,
    {
        let ghost t = s@.subrange(i as int, j as int);
        if s[i] == c {
            assert(t.skip(1) =~= s@.subrange(i + 1, j as int));
            i = i + 1;
        } else {
            assert(t.drop_last() =~= s@.subrange(i as int, j - 1));
            j = j - 1;
        }
    }
    slice_of(s, i, j)
}

/// `s.trim_end_matches(c)`: every trailing `c` removed.
pub open spec fn trim_end_char(s: Seq<char>, c: char) -> Seq<char>
    decreases s.len(),
{
    if s.len() > 0 && s.last() == c {
        trim_end_char(s.drop_last(), c)
    } else {
        s
    }
}

/// `s.trim_end_matches(c)` on a character slice.
pub fn trim_end_char_of(s: &[char], c: char) -> (r: Vec<char>)
    ensures
        r@ == trim_end_char(s@, c),
{
    let mut j: usize = s.len();
    assert(s@.subrange(0, j as int) =~= s@);
    while j > 0 && s[j - 1] == c
        invariant
            j <= s@.len(),
            trim_end_char(s@.subrange(0, j as int), c) == trim_end_char(s@, c),
        decreases j,
    {
        assert(s@.subrange(0, j as int).drop_last() =~= s@.subrange(0, j - 1));
        j = j - 1;
    }
    slice_of(s, 0, j)
}

/// `s.replace(p, "")` for a non-empty `p`: every occurrence, read left to
/// right without overlaps, removed.
pub open spec fn remove_all(s: Seq<char>, p: Seq<char>) -> Seq<char>
    decreases s.len(),
{
    if s.len() == 0 {
        s
    } else if p.len() > 0 && starts_with(s, p) {
        remove_all(s.skip(p.len() as int), p)
    } else {
        seq![s[0]] + remove_all(s.skip(1), p)
    }
}

/// `s.replace(p, "")` on a character slice.
pub fn remove_all_of(s: &[char], p: &str) -> (r: Vec<char>)
    ensures
        r@ == remove_all(s@, p@),
{
    let pc = chars_of(p);
    let n = s.len();
    let m = pc.len();
    let mut out: Vec<char> = Vec::new();
    let mut i: usize = 0;
    assert(s@.skip(0) =~= s@);
    while i < n
        invariant
            n == s@.len(),
            m == pc@.len(),
            pc@ == p@,
            i <= n,
            out@ + remove_all(s@.skip(i as int), p@) == remove_all(s@, p@),
        decreases n - i,
    {
        let rest = slice_of(s, i, n);
        assert(rest@ =~= s@.skip(i as int));
        if m > 0 && has_prefix(&rest, &pc) {
            assert(s@.skip(i as int).skip(m as int) =~= s@.skip(i + m));
            i = i + m;
        } else {
            let ghost before = out@;
            out.push(s[i]);
            assert(s@.skip(i as int).skip(1) =~= s@.skip(i + 1));
            assert(out@ + remove_all(s@.skip(i + 1), p@) =~= before + remove_all(s@.skip(i as int), p@));
            i = i + 1;
        }
    }
    assert(s@.skip(n as int) =~= Seq::<char>::empty());
    assert(out@ + remove_all(s@.skip(n as int), p@) =~= out@);
    out
}

// ---------------------------------------------------------------------------
// Whitespace
// ---------------------------------------------------------------------------

/// `char::is_whitespace` (the Unicode `White_Space` property).
pub open spec fn is_ws(c: char) -> bool {
    ||| c == '\t'
    ||| c == '\n'
    ||| c == '\u{0B}'
    ||| c == '\u{0C}'
    ||| c == '\r'
    ||| c == ' '
    ||| c == '\u{85}'
    ||| c == '\u{A0}'
    ||| c == '\u{1680}'
    ||| ('\u{2000}' <= c && c <= '\u{200A}')
    ||| c == '\u{2028}'
    ||| c == '\u{2029}'
    ||| c == '\u{202F}'
    ||| c == '\u{205F}'
    ||| c == '\u{3000}'
}

/// Whether `c` is white space.
pub fn is_whitespace(c: char) -> (r: bool)
    ensures
        r == is_ws(c),
{
    c == '\t' || c == '\n' || c == '\u{0B}' || c == '\u{0C}' || c == '\r' || c == ' ' || c
        == '\u{85}' || c == '\u{A0}' || c == '\u{1680}' || ('\u{2000}' <= c && c <= '\u{200A}')
        || c == '\u{2028}' || c == '\u{2029}' || c == '\u{202F}' || c == '\u{205F}' || c
        == '\u{3000}'
}

/// Number of leading white-space characters.
pub open spec fn lead_ws(s: Seq<char>) -> nat
    decreases s.len(),
{
    if s.len() > 0 && is_ws(s[0]) {
        1 + lead_ws(s.skip(1))
    } else {
        0
    }
}

/// `str::trim_start`.
pub open spec fn trim_start(s: Seq<char>) -> Seq<char> {
    s.skip(lead_ws(s) as int)
}

/// `str::trim_end`.
pub open spec fn trim_end(s: Seq<char>) -> Seq<char>
    decreases s.len(),
{
    if s.len() > 0 && is_ws(s.last()) {
        trim_end(s.drop_last())
    } else {
        s
    }
}

/// `str::trim`.
pub open spec fn trim(s: Seq<char>) -> Seq<char> {
    trim_end(trim_start(s))
}

pub proof fn lemma_lead_ws(s: Seq<char>)
    ensures
        lead_ws(s) <= s.len(),
        forall|j: int| 0 <= j < lead_ws(s) ==> is_ws(s[j]),
        lead_ws(s) < s.len() ==> !is_ws(s[lead_ws(s) as int]),
    decreases s.len(),
{
    if s.len() > 0 && is_ws(s[0]) {
        lemma_lead_ws(s.skip(1));
        assert forall|j: int| 0 <= j < lead_ws(s) implies is_ws(s[j]) by {
            if j > 0 {
                assert(s.skip(1)[j - 1] == s[j]);
            }
        }
        if lead_ws(s) < s.len() {
            assert(s.skip(1)[lead_ws(s.skip(1)) as int] == s[lead_ws(s) as int]);
        }
    }
}

pub proof fn lemma_lead_ws_exact(s: Seq<char>, k: int)
    requires
        0 <= k <= s.len(),
        forall|j: int| 0 <= j < k ==> is_ws(s[j]),
        k < s.len() ==> !is_ws(s[k]),
    ensures
        lead_ws(s) == k,
    decreases s.len(),
{
    if k > 0 {
        assert(is_ws(s[0]));
        let t = s.skip(1);
        assert forall|j: int| 0 <= j < k - 1 implies is_ws(t[j]) by {
            assert(t[j] == s[j + 1]);
        }
        if k - 1 < t.len() {
            assert(t[k - 1] == s[k]);
        }
        lemma_lead_ws_exact(t, k - 1);
    }
}

pub proof fn lemma_trim_end(s: Seq<char>, k: int)
    requires
        0 <= k <= s.len(),
        forall|j: int| k <= j < s.len() ==> is_ws(s[j]),
        k > 0 ==> !is_ws(s[k - 1]),
    ensures
        trim_end(s) == s.take(k),
    decreases s.len(),
{
    if s.len() > k {
        assert(is_ws(s.last()));
        lemma_trim_end(s.drop_last(), k);
        assert(s.drop_last().take(k) =~= s.take(k));
    } else {
        assert(s.take(k) =~= s);
    }
}

/// `str::trim_start` on a character slice.
pub fn trim_start_chars(s: &[char]) -> (r: Vec<char>)
    ensures
        r@ == trim_start(s@),
{
    let mut i: usize = 0;
    while i < s.len() && is_whitespace(s[i])
        invariant
            i <= s@.len(),
            forall|j: int| 0 <= j < i ==> is_ws(s@[j]),
        decreases s.len() - i,
    {
        i = i + 1;
    }
    proof {
        lemma_lead_ws_exact(s@, i as int);
    }
    slice_of(s, i, s.len())
}

/// `str::trim_end` on a character slice.
pub fn trim_end_chars(s: &[char]) -> (r: Vec<char>)
    ensures
        r@ == trim_end(s@),
{
    let mut k: usize = s.len();
    while k > 0 && is_whitespace(s[k - 1])
        invariant
            k <= s@.len(),
            forall|j: int| k <= j < s@.len() ==> is_ws(s@[j]),
        decreases k,
    {
        k = k - 1;
    }
    proof {
        lemma_trim_end(s@, k as int);
    }
    slice_of(s, 0, k)
}

/// `str::trim` on a character slice.
pub fn trim_chars(s: &[char]) -> (r: Vec<char>)
    ensures
        r@ == trim(s@),
{
    let a = trim_start_chars(s);
    trim_end_chars(&a)
}

/// Whether every character is white space (`s.trim().is_empty()`).
pub fn is_blank(s: &[char]) -> (r: bool)
    ensures
        r == (trim(s@).len() == 0),
{
    let t = trim_chars(s);
    t.len() == 0
}

/// Splitting at runs of white space, dropping empty pieces: the accumulated
/// words and the word being read.
pub open spec fn words_acc(s: Seq<char>) -> (Seq<Seq<char>>, Seq<char>)
    decreases s.len(),
{
    if s.len() == 0 {
        (Seq::empty(), Seq::empty())
    } else {
        let (ws, cur) = words_acc(s.drop_last());
        if is_ws(s.last()) {
            if cur.len() > 0 {
                (ws.push(cur), Seq::empty())
            } else {
                (ws, cur)
            }
        } else {
            (ws, cur.push(s.last()))
        }
    }
}

/// `str::split_whitespace`.
pub open spec fn words(s: Seq<char>) -> Seq<Seq<char>> {
    let (ws, cur) = words_acc(s);
    if cur.len() > 0 {
        ws.push(cur)
    } else {
        ws
    }
}

/// `str::split_whitespace` on a character slice.
pub fn words_of(s: &[char]) -> (r: Vec<Vec<char>>)
    ensures
        views(r@) == words(s@),
{
    let mut out: Vec<Vec<char>> = Vec::new();
    let mut cur: Vec<char> = Vec::new();
    for i in 0..s.len()
        invariant
            (views(out@), cur@) == words_acc(s@.take(i as int)),
    {
        let c = s[i];
        assert(s@.take(i + 1).drop_last() =~= s@.take(i as int));
        if is_whitespace(c) {
            if cur.len() > 0 {
                let w = cur;
                out.push(w);
                cur = Vec::new();
                assert(views(out@) =~= words_acc(s@.take(i + 1)).0);
                assert(cur@ =~= words_acc(s@.take(i + 1)).1);
            }
        } else {
            cur.push(c);
            assert(cur@ =~= words_acc(s@.take(i + 1)).1);
        }
    }
    assert(s@.take(s@.len() as int) =~= s@);
    if cur.len() > 0 {
        out.push(cur);
        assert(views(out@) =~= words(s@));
    }
    out
}

// ---------------------------------------------------------------------------
// Numbers
// ---------------------------------------------------------------------------

pub open spec fn is_digit(c: char) -> bool {
    '0' <= c && c <= '9'
}

pub open spec fn digit_val(c: char) -> nat {
    (c as nat - '0' as nat) as nat
}

pub open spec fn all_digits(s: Seq<char>) -> bool {
    forall|i: int| 0 <= i < s.len() ==> is_digit(#[trigger] s[i])
}

/// The value of a string of decimal digits.
pub open spec fn digits_value(s: Seq<char>) -> nat
    decreases s.len(),
{
    if s.len() == 0 {
        0
    } else {
        digits_value(s.drop_last()) * 10 + digit_val(s.last())
    }
}

/// The unsigned value a decimal numeral denotes (`str::parse` for unsigned
/// integers, before the range check): an optional `+`, then one or more digits.
pub open spec fn numeral(s: Seq<char>) -> Option<nat> {
    let body = if s.len() > 0 && s[0] == '+' {
        s.skip(1)
    } else {
        s
    };
    if body.len() > 0 && all_digits(body) {
        Some(digits_value(body))
    } else {
        None
    }
}

/// `str::parse::<u32>`.
pub open spec fn parse_u32(s: Seq<char>) -> Option<u32> {
    match numeral(s) {
        Some(v) => if v <= u32::MAX {
            Some(v as u32)
        } else {
            None
        },
        None => None,
    }
}

/// `str::parse::<usize>`.
pub open spec fn parse_usize(s: Seq<char>) -> Option<usize> {
    match numeral(s) {
        Some(v) => if v <= usize::MAX {
            Some(v as usize)
        } else {
            None
        },
        None => None,
    }
}

/// `str::parse::<i64>`: an optional sign, then one or more digits, in range.
pub open spec fn parse_i64(s: Seq<char>) -> Option<i64> {
    if s.len() > 0 && s[0] == '-' {
        let body = s.skip(1);
        if body.len() > 0 && all_digits(body) && digits_value(body) <= 0x8000_0000_0000_0000 {
            Some((0 - digits_value(body)) as i64)
        } else {
            None
        }
    } else {
        match numeral(s) {
            Some(v) => if v <= i64::MAX {
                Some(v as i64)
            } else {
                None
            },
            None => None,
        }
    }
}

/// Value of the digits `s[start..]`, or `None` when one is not a digit, the
/// range is empty, or the value exceeds `limit`.
fn digits_upto(s: &[char], start: usize, limit: u64) -> (r: Option<u64>)
    requires
        start <= s@.len(),
        limit >= 9,
    ensures
        match r {
            Some(v) => s@.skip(start as int).len() > 0 && all_digits(s@.skip(start as int))
                && v == digits_value(s@.skip(start as int)) && v <= limit,
            None => !(s@.skip(start as int).len() > 0 && all_digits(s@.skip(start as int))
                && digits_value(s@.skip(start as int)) <= limit),
        },
{
    let ghost t = s@.skip(start as int);
    if start >= s.len() {
        return None;
    }
    let mut acc: u64 = 0;
    let mut i = start;
    while i < s.len()
        invariant
            start <= i <= s@.len(),
            t == s@.skip(start as int),
            all_digits(t.take(i - start)),
            acc == digits_value(t.take(i - start)),
            acc <= limit,
            limit >= 9,
        decreases s.len() - i,
    {
        let c = s[i];
        assert(t.take(i - start + 1).drop_last() =~= t.take(i - start));
        assert(t[i - start] == c);
        if !('0' <= c && c <= '9') {
            assert(!is_digit(t[i - start]));
            return None;
        }
        let d = (c as u32 - '0' as u32) as u64;
        if acc > (limit - d) / 10 {
            proof {
                // every longer digit string only grows
                assert(digits_value(t.take(i - start + 1)) == acc * 10 + d);
                assert(acc * 10 + d > limit) by (nonlinear_arith)
                    requires
                        acc > (limit - d) / 10,
                        d <= 9,
                        d <= limit,
                ;
                lemma_digits_prefix_bound(t, (i - start + 1) as int);
            }
            return None;
        }
        assert(acc * 10 + d <= limit) by (nonlinear_arith)
            requires
                acc <= (limit - d) / 10,
                d <= limit,
        ;
        acc = acc * 10 + d;
        i = i + 1;
        assert(all_digits(t.take(i - start)));
    }
    assert(t.take(i - start) =~= t);
    Some(acc)
}

pub proof fn lemma_digits_prefix_bound(t: Seq<char>, k: int)
    requires
        0 <= k <= t.len(),
        all_digits(t.take(k)),
    ensures
        all_digits(t) ==> digits_value(t) >= digits_value(t.take(k)),
    decreases t.len() - k,
{
    if all_digits(t) && k < t.len() {
        assert(all_digits(t.take(k + 1)));
        assert(t.take(k + 1).drop_last() =~= t.take(k));
        lemma_digits_prefix_bound(t, k + 1);
    } else if k == t.len() {
        assert(t.take(k) =~= t);
    }
}

/// `str::parse::<u32>` on a character slice.
pub fn parse_u32_chars(s: &[char]) -> (r: Option<u32>)
    ensures
        r == parse_u32(s@),
{
    let start: usize = if s.len() > 0 && s[0] == '+' {
        1
    } else {
        0
    };
    assert(s@.skip(0) =~= s@);
    match digits_upto(s, start, 0xffff_ffff) {
        Some(v) => Some(v as u32),
        None => None,
    }
}

/// `str::parse::<usize>` on a character slice.
pub fn parse_usize_chars(s: &[char]) -> (r: Option<usize>)
    ensures
        r == parse_usize(s@),
{
    let start: usize = if s.len() > 0 && s[0] == '+' {
        1
    } else {
        0
    };
    assert(s@.skip(0) =~= s@);
    match digits_upto(s, start, usize::MAX as u64) {
        Some(v) => Some(v as usize),
        None => None,
    }
}

/// `str::parse::<i64>` on a character slice.
pub fn parse_i64_chars(s: &[char]) -> (r: Option<i64>)
    ensures
        r == parse_i64(s@),
{
    if s.len() > 0 && s[0] == '-' {
        match digits_upto(s, 1, 0x8000_0000_0000_0000) {
            Some(v) => {
                if v == 0x8000_0000_0000_0000 {
                    Some(i64::MIN)
                } else {
                    Some(0 - (v as i64))
                }
            },
            None => None,
        }
    } else {
        let start: usize = if s.len() > 0 && s[0] == '+' {
            1
        } else {
            0
        };
        assert(s@.skip(0) =~= s@);
        match digits_upto(s, start, 0x7fff_ffff_ffff_ffff) {
            Some(v) => Some(v as i64),
            None => None,
        }
    }
}

/// Decimal digit character for `d < 10`.
pub open spec fn digit_char(d: nat) -> char {
    ('0' as nat + d) as char
}

/// The decimal numeral of `n` (`format!("{}", n)` for unsigned values).
pub open spec fn decimal(n: nat) -> Seq<char>
    decreases n,
{
    if n < 10 {
        seq![digit_char(n)]
    } else {
        decimal(n / 10).push(digit_char(n % 10))
    }
}

/// Appends `n` in decimal.
pub fn push_decimal(out: &mut Vec<char>, n: u64)
    ensures
        final(out)@ == old(out)@ + decimal(n as nat),
{
    let d = decimal_of(n);
    push_all(out, &d);
}

/// `format!("{}", n)` for a `u64`.
pub fn decimal_of(n: u64) -> (r: Vec<char>)
    ensures
        r@ == decimal(n as nat),
    decreases n,
{
    let d = (n % 10) as u32;
    let c = char_from_digit(d);
    if n < 10 {
        let mut v: Vec<char> = Vec::new();
        v.push(c);
        assert(v@ =~= decimal(n as nat));
        v
    } else {
        let mut v = decimal_of(n / 10);
        v.push(c);
        v
    }
}

/// The character of a decimal digit.
pub fn char_from_digit(d: u32) -> (c: char)
    requires
        d < 10,
    ensures
        c == digit_char(d as nat),
{
    if d == 0 {
        '0'
    } else if d == 1 {
        '1'
    } else if d == 2 {
        '2'
    } else if d == 3 {
        '3'
    } else if d == 4 {
        '4'
    } else if d == 5 {
        '5'
    } else if d == 6 {
        '6'
    } else if d == 7 {
        '7'
    } else if d == 8 {
        '8'
    } else {
        '9'
    }
}

/// Lower-case hexadecimal digit character for `d < 16`.
pub open spec fn hex_char(d: nat) -> char {
    if d < 10 {
        digit_char(d)
    } else {
        ('a' as nat + (d - 10)) as char
    }
}

/// The last `k` lower-case hexadecimal digits of `n`, zero padded
/// (`format!("{:0k$x}", n)` when `n < 16^k`).
pub open spec fn hex_digits(n: nat, k: nat) -> Seq<char>
    decreases k,
{
    if k == 0 {
        Seq::empty()
    } else {
        hex_digits(n / 16, (k - 1) as nat).push(hex_char(n % 16))
    }
}

/// The character of a hexadecimal digit.
pub fn hex_char_of(d: u64) -> (c: char)
    requires
        d < 16,
    ensures
        c == hex_char(d as nat),
{
    if d < 10 {
        char_from_digit(d as u32)
    } else if d == 10 {
        'a'
    } else if d == 11 {
        'b'
    } else if d == 12 {
        'c'
    } else if d == 13 {
        'd'
    } else if d == 14 {
        'e'
    } else {
        'f'
    }
}

/// The last `k` hexadecimal digits of `n`, zero padded.
pub fn hex_digits_of(n: u64, k: u32) -> (r: Vec<char>)
    ensures
        r@ == hex_digits(n as nat, k as nat),
    decreases k,
{
    if k == 0 {
        Vec::new()
    } else {
        let mut v = hex_digits_of(n / 16, k - 1);
        v.push(hex_char_of(n % 16));
        v
    }
}

// ---------------------------------------------------------------------------
// Substrings
// ---------------------------------------------------------------------------

/// Whether `p` occurs in `s` at index `i`.
pub open spec fn occurs_at(s: Seq<char>, p: Seq<char>, i: int) -> bool {
    0 <= i && i + p.len() <= s.len() && s.subrange(i, i + p.len()) == p
}

/// The first index at or after `i` at which `p` occurs in `s`.
pub open spec fn first_occ_from(s: Seq<char>, p: Seq<char>, i: int) -> Option<int>
    decreases s.len() + 1 - i,
{
    if i < 0 || i + p.len() > s.len() {
        None
    } else if occurs_at(s, p, i) {
        Some(i)
    } else {
        first_occ_from(s, p, i + 1)
    }
}

/// The first index at which `p` occurs in `s` (`str::find`).
pub open spec fn first_occ(s: Seq<char>, p: Seq<char>) -> Option<int> {
    first_occ_from(s, p, 0)
}

proof fn lemma_first_occ_from_bounds(s: Seq<char>, p: Seq<char>, i: int)
    ensures
        first_occ_from(s, p, i) matches Some(k) ==> i <= k && occurs_at(s, p, k),
    decreases s.len() + 1 - i,
{
    if !(i < 0 || i + p.len() > s.len()) && !occurs_at(s, p, i) {
        lemma_first_occ_from_bounds(s, p, i + 1);
    }
}

pub proof fn lemma_first_occ(s: Seq<char>, p: Seq<char>)
    ensures
        first_occ(s, p) matches Some(k) ==> occurs_at(s, p, k),
{
    lemma_first_occ_from_bounds(s, p, 0);
}

fn matches_at(s: &[char], p: &[char], i: usize) -> (r: bool)
    requires
        i + p@.len() <= s@.len(),
    ensures
        r == occurs_at(s@, p@, i as int),
{
    let n = s.len();
    let m = p.len();
    let mut j: usize = 0;
    while j < m
        invariant
            n == s@.len(),
            m == p@.len(),
            i + m <= n,
            j <= m,
            forall|k: int| 0 <= k < j ==> s@[i + k] == p@[k],
        decreases p.len() - j,
    {
        if s[i + j] != p[j] {
            assert(s@.subrange(i as int, i + p@.len())[j as int] != p@[j as int]);
            return false;
        }
        j = j + 1;
    }
    assert(s@.subrange(i as int, i + p@.len()) =~= p@);
    true
}

/// The first index at which `p` occurs in `s`.
pub fn find_sub(s: &[char], p: &[char]) -> (r: Option<usize>)
    ensures
        match r {
            Some(i) => first_occ(s@, p@) == Some(i as int),
            None => first_occ(s@, p@) is None,
        },
{
    let n = s.len();
    let m = p.len();
    if m > n {
        return None;
    }
    if m == 0 {
        assert(s@.subrange(0, 0) =~= p@);
        return Some(0);
    }
    let last = n - m;
    let mut i: usize = 0;
    while i <= last
        invariant
            n == s@.len(),
            m == p@.len(),
            last + m == n,
            m > 0,
            i <= last + 1,
            first_occ_from(s@, p@, i as int) == first_occ(s@, p@),
        decreases last + 1 - i,
    {
        if matches_at(s, p, i) {
            return Some(i);
        }
        i = i + 1;
    }
    None
}

/// `s.trim_start_matches(p)` for a non-empty pattern: every leading copy of `p`
/// removed.
pub open spec fn strip_all_prefix(s: Seq<char>, p: Seq<char>) -> Seq<char>
    decreases s.len(),
{
    if p.len() > 0 && starts_with(s, p) {
        strip_all_prefix(s.skip(p.len() as int), p)
    } else {
        s
    }
}

/// Removes every leading copy of `p`.
pub fn strip_all_prefix_chars(s: &[char], p: &[char]) -> (r: Vec<char>)
    ensures
        r@ == strip_all_prefix(s@, p@),
{
    let n = s.len();
    let m = p.len();
    let mut i: usize = 0;
    if m == 0 {
        return copy_chars(s);
    }
    assert(s@.skip(0) =~= s@);
    while i <= n && n - i >= m && matches_at(s, p, i)
        invariant
            n == s@.len(),
            m == p@.len(),
            m > 0,
            i <= n,
            strip_all_prefix(s@.skip(i as int), p@) == strip_all_prefix(s@, p@),
        decreases s.len() - i,
    {
        let ghost t = s@.skip(i as int);
        assert(t.take(p@.len() as int) =~= s@.subrange(i as int, i + p@.len()));
        assert(t.skip(p@.len() as int) =~= s@.skip(i + p@.len()));
        i = i + m;
    }
    let ghost t = s@.skip(i as int);
    if n - i >= m {
        assert(t.take(p@.len() as int) =~= s@.subrange(i as int, i + p@.len()));
    }
    slice_of(s, i, s.len())
}

// ---------------------------------------------------------------------------
// Bytes
// ---------------------------------------------------------------------------

/// What `String::from_utf8_lossy` makes of a byte sequence.
pub uninterp spec fn lossy_utf8(bytes: Seq<u8>) -> Seq<char>;

/// `String::from_utf8_lossy`: the bytes decoded as UTF-8, each invalid
/// sequence replaced by U+FFFD. The result is a function of the bytes alone.
#[verifier::external_body]
pub(crate) fn decode_lossy(bytes: &[u8]) -> (s: String)
    ensures
        s@ == lossy_utf8(bytes@),
{
    String::from_utf8_lossy(bytes).into_owned()
}

} // verus!
