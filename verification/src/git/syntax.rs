//! Syntax highlighting of diff lines, and the merge of syntax classes with
//! word-diff emphasis into one run of spans per line.
use vstd::prelude::*;

use crate::git::types::{MergedSpan, SyntaxToken, WordSpan, extension};
use crate::text::{chars_of, string_of};

verus! {

// ---------------------------------------------------------------------------
// Classes and extensions
// ---------------------------------------------------------------------------

/// The CSS class of a foreground colour of the `base16-ocean.dark` theme;
/// empty for plain text and for colours the theme does not use for tokens.
pub open spec fn css_class(r: u8, g: u8, b: u8) -> Seq<char> {
    if (r, g, b) == (180u8, 142u8, 173u8) {
        "syn-keyword"@
    } else if (r, g, b) == (163u8, 190u8, 140u8) {
        "syn-string"@
    } else if (r, g, b) == (101u8, 115u8, 126u8) {
        "syn-comment"@
    } else if (r, g, b) == (208u8, 135u8, 112u8) {
        "syn-number"@
    } else if (r, g, b) == (143u8, 161u8, 179u8) {
        "syn-function"@
    } else if (r, g, b) == (235u8, 203u8, 139u8) {
        "syn-type"@
    } else if (r, g, b) == (191u8, 97u8, 106u8) {
        "syn-variable"@
    } else {
        Seq::empty()
    }
}

/// The CSS class of a foreground colour.
pub fn color_to_css_class(r: u8, g: u8, b: u8) -> (c: &'static str)
    ensures
        c@ == css_class(r, g, b),
{
    proof {
        reveal_strlit("");
    }
    if r == 180 && g == 142 && b == 173 {
        "syn-keyword"
    } else if r == 163 && g == 190 && b == 140 {
        "syn-string"
    } else if r == 101 && g == 115 && b == 126 {
        "syn-comment"
    } else if r == 208 && g == 135 && b == 112 {
        "syn-number"
    } else if r == 143 && g == 161 && b == 179 {
        "syn-function"
    } else if r == 235 && g == 203 && b == 139 {
        "syn-type"
    } else if r == 191 && g == 97 && b == 106 {
        "syn-variable"
    } else {
        ""
    }
}

/// TypeScript and the web-component formats are read with the JavaScript
/// syntax, which the bundled syntaxes have.
pub open spec fn fallback(ext: Seq<char>) -> Seq<char> {
    if ext == "ts"@ || ext == "mts"@ || ext == "cts"@ || ext == "tsx"@ || ext == "jsx"@ || ext
        == "svelte"@ || ext == "vue"@ {
        "js"@
    } else {
        ext
    }
}

fn fallback_extension(ext: &str) -> (r: String)
    ensures
        r@ == fallback(ext@),
{
    let e = String::from_str(ext);
    let names = ["ts", "mts", "cts", "tsx", "jsx", "svelte", "vue"];
    let mut i: usize = 0;
    while i < 7
        invariant
            i <= 7,
            e@ == ext@,
            names@ == seq!["ts", "mts", "cts", "tsx", "jsx", "svelte", "vue"],
            forall|k: int| 0 <= k < i ==> ext@ != (#[trigger] names@[k])@,
        decreases 7 - i,
    {
        let n = String::from_str(names[i]);
        if e == n {
            return String::from_str("js");
        }
        i = i + 1;
    }
    assert(ext@ != names@[0]@);
    assert(ext@ != names@[1]@);
    assert(ext@ != names@[2]@);
    assert(ext@ != names@[3]@);
    assert(ext@ != names@[4]@);
    assert(ext@ != names@[5]@);
    assert(ext@ != names@[6]@);
    e
}

/// The extension of a path (`Path::extension`), empty when it has none.
pub fn extension_from_path(path: &str) -> (r: String)
    ensures
        r@ == (match extension(path@) {
            Some(e) => e,
            None => Seq::empty(),
        }),
{
    let cs = chars_of(path);
    match crate::git::types::extension_of(&cs) {
        Some(e) => string_of(&e),
        None => String::new(),
    }
}


// ---------------------------------------------------------------------------
// Merging syntax classes with word emphasis
// ---------------------------------------------------------------------------

pub type TokenView = (u32, u32, Seq<char>);

pub type SpanView = (u32, u32, Seq<char>, bool);

/// Every position where a span may start or end: 0, the content length,
/// and both ends of every token and word span.
pub open spec fn boundary_set(ts: Seq<TokenView>, ws: Seq<WordSpan>, len: u32) -> Set<u32> {
    Set::new(
        |x: u32|
            x == 0 || x == len || (exists|i: int| 0 <= i < ts.len() && (ts[i].0 == x || ts[i].1 == x))
                || (exists|i: int| 0 <= i < ws.len() && (ws[i].start == x || ws[i].end == x)),
    )
}

pub open spec fn increasing(b: Seq<u32>) -> bool {
    forall|i: int, j: int| 0 <= i < j < b.len() ==> b[i] < b[j]
}

/// The class of the first token covering `[s, e)`, empty when none does.
pub open spec fn class_over(ts: Seq<TokenView>, s: u32, e: u32) -> Seq<char>
    decreases ts.len(),
{
    if ts.len() == 0 {
        Seq::empty()
    } else if ts[0].0 <= s && ts[0].1 >= e {
        ts[0].2
    } else {
        class_over(ts.skip(1), s, e)
    }
}

/// Whether an emphasized word span covers `[s, e)`.
pub open spec fn emphasized_over(ws: Seq<WordSpan>, s: u32, e: u32) -> bool {
    exists|i: int| 0 <= i < ws.len() && ws[i].start <= s && ws[i].end >= e && ws[i].emphasized
}

/// The spans between consecutive boundaries among the first `k` windows,
/// skipping windows that start at or past the end of the content.
pub open spec fn window_spans(b: Seq<u32>, ts: Seq<TokenView>, ws: Seq<WordSpan>, len: u32, k: int) -> Seq<SpanView>
    decreases k,
{
    if k <= 0 {
        Seq::empty()
    } else {
        let prev = window_spans(b, ts, ws, len, k - 1);
        let s = b[k - 1];
        let e0 = b[k];
        if s >= e0 || s >= len {
            prev
        } else {
            let e = if e0 < len {
                e0
            } else {
                len
            };
            prev.push((s, e, class_over(ts, s, e), emphasized_over(ws, s, e)))
        }
    }
}

/// The merged spans over the increasing boundaries `b`.
pub open spec fn merged(b: Seq<u32>, ts: Seq<TokenView>, ws: Seq<WordSpan>, len: u32) -> Seq<SpanView> {
    if len == 0 || b.len() == 0 {
        Seq::empty()
    } else {
        window_spans(b, ts, ws, len, b.len() - 1)
    }
}

/// Each span between boundaries is emphasized exactly when some word span
/// marked emphasized covers the whole of it; a span covered only by word
/// spans not so marked is plain.
pub proof fn lemma_window_emphasis(b: Seq<u32>, ts: Seq<TokenView>, ws: Seq<WordSpan>, len: u32, k: int)
    ensures
        forall|i: int|
            0 <= i < window_spans(b, ts, ws, len, k).len() ==> ((#[trigger] window_spans(b, ts, ws, len, k)[i]).3
                <==> exists|j: int|
                0 <= j < ws.len() && ws[j].start <= window_spans(b, ts, ws, len, k)[i].0 && ws[j].end
                    >= window_spans(b, ts, ws, len, k)[i].1 && ws[j].emphasized),
    decreases k,
{
    if k > 0 {
        lemma_window_emphasis(b, ts, ws, len, k - 1);
        let prev = window_spans(b, ts, ws, len, k - 1);
        let cur = window_spans(b, ts, ws, len, k);
        assert forall|i: int| 0 <= i < cur.len() implies ((#[trigger] cur[i]).3 <==> exists|j: int|
            0 <= j < ws.len() && ws[j].start <= cur[i].0 && ws[j].end >= cur[i].1 && ws[j].emphasized) by {
            if i < prev.len() {
                assert(cur[i] == prev[i]);
            }
        }
    }
}

/// The merged spans of a line are emphasized exactly where an emphasized word
/// span covers them.
pub proof fn lemma_merged_emphasis(b: Seq<u32>, ts: Seq<TokenView>, ws: Seq<WordSpan>, len: u32)
    ensures
        forall|i: int|
            0 <= i < merged(b, ts, ws, len).len() ==> ((#[trigger] merged(b, ts, ws, len)[i]).3 <==> exists|j: int|
                0 <= j < ws.len() && ws[j].start <= merged(b, ts, ws, len)[i].0 && ws[j].end >= merged(
                    b,
                    ts,
                    ws,
                    len,
                )[i].1 && ws[j].emphasized),
{
    if len != 0 && b.len() != 0 {
        lemma_window_emphasis(b, ts, ws, len, b.len() - 1);
    }
}

pub open spec fn token_views(v: Seq<SyntaxToken>) -> Seq<TokenView> {
    v.map_values(|t: SyntaxToken| t@)
}

pub open spec fn span_views(v: Seq<MergedSpan>) -> Seq<SpanView> {
    v.map_values(|m: MergedSpan| m@)
}

/// Inserts `x` into the increasing `b` unless it is there.
fn insert_boundary(b: &mut Vec<u32>, x: u32)
    requires
        increasing(old(b)@),
    ensures
        increasing(final(b)@),
        final(b)@.to_set() == old(b)@.to_set().insert(x),
{
    let mut j: usize = 0;
    while j < b.len() && b[j] < x
        invariant
            j <= b@.len(),
            forall|k: int| 0 <= k < j ==> b@[k] < x,
        decreases b@.len() - j,
    {
        j = j + 1;
    }
    if j < b.len() && b[j] == x {
        assert(b@.to_set() =~= b@.to_set().insert(x)) by {
            assert(b@.contains(x));
        }
        return;
    }
    let ghost old_b = b@;
    b.insert(j, x);
    assert(b@ =~= old_b.take(j as int).push(x) + old_b.skip(j as int));
    assert forall|p: int, q: int| 0 <= p < q < b@.len() implies b@[p] < b@[q] by {
        if q < j {
        } else if q == j {
        } else if p < j {
            assert(old_b[q - 1] >= x);
        } else if p == j {
            assert(old_b[q - 1] >= x);
            assert(old_b[q - 1] != x) by {
                if j < old_b.len() {
                    assert(old_b[j as int] > x);
                    if q - 1 > j {
                        assert(old_b[j as int] < old_b[q - 1]);
                    }
                }
            }
        } else {
            assert(old_b[p - 1] < old_b[q - 1]);
        }
    }
    assert forall|y: u32| b@.to_set().contains(y) <==> old_b.to_set().insert(x).contains(y) by {
        if old_b.contains(y) {
            let k = choose|k: int| 0 <= k < old_b.len() && old_b[k] == y;
            if k < j {
                assert(b@[k] == y);
            } else {
                assert(b@[k + 1] == y);
            }
        }
        if b@.contains(y) {
            let k = choose|k: int| 0 <= k < b@.len() && b@[k] == y;
            if k < j {
                assert(old_b[k] == y);
            } else if k > j {
                assert(old_b[k - 1] == y);
            }
        }
        if y == x {
            assert(b@[j as int] == x);
        }
    }
    assert(b@.to_set() =~= old_b.to_set().insert(x));
}

fn class_over_of(ts: &[SyntaxToken], s: u32, e: u32) -> (r: String)
    ensures
        r@ == class_over(token_views(ts@), s, e),
{
    let ghost tv = token_views(ts@);
    let n = ts.len();
    assert(tv.skip(0) =~= tv);
    for i in 0..n
        invariant
            n == ts@.len(),
            tv == token_views(ts@),
            class_over(tv.skip(i as int), s, e) == class_over(tv, s, e),
    {
        assert(tv.skip(i as int)[0] == ts@[i as int]@);
        assert(tv.skip(i as int).skip(1) =~= tv.skip(i + 1));
        if ts[i].start <= s && ts[i].end >= e {
            return ts[i].scope.clone();
        }
    }
    assert(tv.skip(n as int).len() == 0);
    String::new()
}

fn emphasized_over_of(ws: &[WordSpan], s: u32, e: u32) -> (r: bool)
    ensures
        r == emphasized_over(ws@, s, e),
{
    let n = ws.len();
    for i in 0..n
        invariant
            n == ws@.len(),
            forall|k: int| 0 <= k < i ==> !(ws@[k].start <= s && ws@[k].end >= e && ws@[k].emphasized),
    {
        if ws[i].start <= s && ws[i].end >= e && ws[i].emphasized {
            return true;
        }
    }
    false
}

/// One run of spans for a line: the line is cut at every token and word
/// boundary; each piece takes the class of the first token that covers it
/// and is emphasized when an emphasized word span covers it. The spans cover
/// `0..content_len` in order, with no gap.
pub fn merge_spans(syntax_tokens: &[SyntaxToken], word_spans: &[WordSpan], content_len: u32) -> (r: Vec<MergedSpan>)
    ensures
        exists|b: Seq<u32>|
            increasing(b) && b.to_set() == boundary_set(token_views(syntax_tokens@), word_spans@, content_len)
                && span_views(r@) == merged(b, token_views(syntax_tokens@), word_spans@, content_len),
        content_len == 0 ==> r@.len() == 0,
        content_len > 0 ==> r@.len() > 0 && r@[0].start == 0 && r@[r@.len() - 1].end == content_len,
        forall|i: int| 0 <= i < r@.len() - 1 ==> (#[trigger] r@[i]).end == r@[i + 1].start,
        forall|i: int| 0 <= i < r@.len() ==> (#[trigger] r@[i]).start < r@[i].end,
        forall|i: int|
            0 <= i < r@.len() ==> ((#[trigger] r@[i]).emphasized <==> exists|j: int|
                0 <= j < word_spans@.len() && word_spans@[j].start <= r@[i].start && word_spans@[j].end
                    >= r@[i].end && word_spans@[j].emphasized),
{
    let ghost tv = token_views(syntax_tokens@);
    let mut b: Vec<u32> = Vec::new();
    insert_boundary(&mut b, 0);
    insert_boundary(&mut b, content_len);
    assert(b@.to_set() =~= Set::empty().insert(0u32).insert(content_len));
    for i in 0..syntax_tokens.len()
        invariant
            tv == token_views(syntax_tokens@),
            increasing(b@),
            b@.to_set() == Set::new(
                |x: u32|
                    x == 0 || x == content_len || exists|k: int|
                        0 <= k < i && (tv[k].0 == x || tv[k].1 == x),
            ),
    {
        let ghost before = b@.to_set();
        insert_boundary(&mut b, syntax_tokens[i].start);
        insert_boundary(&mut b, syntax_tokens[i].end);
        assert(b@.to_set() =~= Set::new(
            |x: u32|
                x == 0 || x == content_len || exists|k: int|
                    0 <= k < i + 1 && (tv[k].0 == x || tv[k].1 == x),
        )) by {
            assert(tv[i as int].0 == syntax_tokens@[i as int].start);
            assert(tv[i as int].1 == syntax_tokens@[i as int].end);
        }
    }
    for i in 0..word_spans.len()
        invariant
            tv == token_views(syntax_tokens@),
            increasing(b@),
            b@.to_set() == Set::new(
                |x: u32|
                    x == 0 || x == content_len || (exists|k: int|
                        0 <= k < tv.len() && (tv[k].0 == x || tv[k].1 == x)) || (exists|k: int|
                        0 <= k < i && (word_spans@[k].start == x || word_spans@[k].end == x)),
            ),
    {
        insert_boundary(&mut b, word_spans[i].start);
        insert_boundary(&mut b, word_spans[i].end);
        assert(b@.to_set() =~= Set::new(
            |x: u32|
                x == 0 || x == content_len || (exists|k: int|
                    0 <= k < tv.len() && (tv[k].0 == x || tv[k].1 == x)) || (exists|k: int|
                    0 <= k < i + 1 && (word_spans@[k].start == x || word_spans@[k].end == x)),
        ));
    }
    assert(b@.to_set() =~= boundary_set(tv, word_spans@, content_len));
    let ghost bs = b@;
    if content_len == 0 {
        let empty: Vec<MergedSpan> = Vec::new();
        assert(span_views(empty@) =~= merged(bs, tv, word_spans@, content_len));
        return empty;
    }
    // 0 and the content length are boundaries; 0 comes first.
    assert(bs.to_set().contains(0u32));
    assert(bs.to_set().contains(content_len));
    let ghost p0 = choose|k: int| 0 <= k < bs.len() && bs[k] == 0u32;
    let ghost pl = choose|k: int| 0 <= k < bs.len() && bs[k] == content_len;
    assert(p0 == 0) by {
        if p0 > 0 {
            assert(bs[0] < bs[p0]);
        }
    }
    assert(pl > 0);
    let mut out: Vec<MergedSpan> = Vec::new();
    let n = b.len();
    let mut i: usize = 0;
    while i + 1 < n
        invariant
            n == b@.len(),
            bs == b@,
            tv == token_views(syntax_tokens@),
            increasing(bs),
            0 < pl < n,
            bs[0] == 0,
            bs[pl] == content_len,
            i < n,
            span_views(out@) == window_spans(bs, tv, word_spans@, content_len, i as int),
            out@.len() == (if i <= pl { i as int } else { pl }),
            forall|k: int| 0 <= k < out@.len() ==> (#[trigger] out@[k]).start == bs[k] && out@[k].end == bs[k + 1],
        decreases n - i,
    {
        let s = b[i];
        let e0 = b[i + 1];
        assert(s < e0);
        if s >= content_len {
            assert(span_views(out@) =~= window_spans(bs, tv, word_spans@, content_len, i + 1));
            assert(i >= pl) by {
                if i < pl {
                    assert(bs[i as int] < bs[pl]);
                }
            }
        } else {
            assert(i < pl) by {
                if i >= pl {
                    if i > pl {
                        assert(bs[pl] < bs[i as int]);
                    }
                }
            }
            assert(e0 <= content_len) by {
                if i + 1 < pl {
                    assert(bs[i + 1] < bs[pl]);
                }
            }
            let e = if e0 < content_len {
                e0
            } else {
                content_len
            };
            let class = class_over_of(syntax_tokens, s, e);
            let emph = emphasized_over_of(word_spans, s, e);
            let ghost before = span_views(out@);
            out.push(MergedSpan { start: s, end: e, syntax_class: class, emphasized: emph });
            assert(span_views(out@) =~= before.push((s, e, class@, emph)));
            assert(span_views(out@) =~= window_spans(bs, tv, word_spans@, content_len, i + 1));
        }
        i = i + 1;
    }
    assert(out@.len() == pl);
    proof {
        assert(out@[0].start == 0);
        assert(out@[out@.len() - 1].end == bs[pl]);
        assert forall|k: int| 0 <= k < out@.len() - 1 implies (#[trigger] out@[k]).end == out@[k + 1].start by {}
        assert forall|k: int| 0 <= k < out@.len() implies (#[trigger] out@[k]).start < out@[k].end by {
            assert(bs[k] < bs[k + 1]);
        }
        lemma_merged_emphasis(bs, tv, word_spans@, content_len);
        assert(span_views(out@) == merged(bs, tv, word_spans@, content_len));
        assert forall|k: int| 0 <= k < out@.len() implies ((#[trigger] out@[k]).emphasized <==> exists|j: int|
            0 <= j < word_spans@.len() && word_spans@[j].start <= out@[k].start && word_spans@[j].end
                >= out@[k].end && word_spans@[j].emphasized) by {
            assert(span_views(out@)[k] == out@[k]@);
        }
    }
    out
}


// ---------------------------------------------------------------------------
// Highlighting with the bundled syntaxes
// ---------------------------------------------------------------------------

#[verifier::external_type_specification]
#[verifier::external_body]
pub struct ExSyntaxSet(syntect::parsing::SyntaxSet);

#[verifier::external_type_specification]
#[verifier::external_body]
pub struct ExThemeSet(syntect::highlighting::ThemeSet);

#[verifier::external_type_specification]
#[verifier::external_body]
pub struct ExHighlightLines<'a>(syntect::easy::HighlightLines<'a>);

/// The syntaxes and themes bundled with `syntect`. They are loaded once by
/// the application and shared; loading them is the only way to make one.
pub struct SyntaxAssets {
    syntaxes: syntect::parsing::SyntaxSet,
    themes: syntect::highlighting::ThemeSet,
}

/// The name of the syntax the bundled set gives files with extension `ext`
/// (`SyntaxSet::find_syntax_by_extension`), if it has one.
pub uninterp spec fn bundled_syntax_name(ext: Seq<char>) -> Option<Seq<char>>;

/// `SyntaxSet::load_defaults_newlines`.
#[verifier::external_body]
fn load_syntaxes() -> syntect::parsing::SyntaxSet {
    syntect::parsing::SyntaxSet::load_defaults_newlines()
}

/// `ThemeSet::load_defaults`.
#[verifier::external_body]
fn load_themes() -> syntect::highlighting::ThemeSet {
    syntect::highlighting::ThemeSet::load_defaults()
}

/// `SyntaxSet::find_syntax_by_extension` on the bundled set: the name of
/// the syntax found. The bundled set is the same in every process, so the
/// name depends on the extension alone.
#[verifier::external_body]
fn syntax_name(assets: &SyntaxAssets, ext: &str) -> (r: Option<String>)
    ensures
        match r {
            Some(n) => bundled_syntax_name(ext@) == Some(n@),
            None => bundled_syntax_name(ext@) is None,
        },
{
    assets.syntaxes.find_syntax_by_extension(ext).map(|s| s.name.clone())
}

/// The theme the highlighter colours with; the colour classes follow its
/// palette.
pub const HIGHLIGHT_THEME: &'static str = "base16-ocean.dark";

/// Whether the bundled theme set (`ThemeSet::load_defaults`) has a theme of
/// this name.
pub uninterp spec fn bundled_theme_exists(name: Seq<char>) -> bool;

/// Whether the bundled theme set has a theme of this name
/// (`BTreeMap::contains_key` on `ThemeSet::themes`).
#[verifier::external_body]
fn has_theme(assets: &SyntaxAssets, name: &str) -> (r: bool)
    ensures
        r == bundled_theme_exists(name@),
{
    assets.themes.themes.contains_key(name)
}

/// `HighlightLines::new` for the syntax the bundled set gives `ext` and the
/// bundled theme named `theme`, which must be there; `None` exactly when the
/// set has no syntax for `ext`.
#[verifier::external_body]
fn new_highlighter<'a>(assets: &'a SyntaxAssets, ext: &str, theme: &str) -> (r: Option<syntect::easy::HighlightLines<'a>>)
    requires
        bundled_theme_exists(theme@),
    ensures
        r is Some <==> bundled_syntax_name(ext@) is Some,
{
    let syntax = assets.syntaxes.find_syntax_by_extension(ext)?;
    Some(syntect::easy::HighlightLines::new(syntax, &assets.themes.themes[theme]))
}

/// `HighlightLines::highlight_line`: the styled runs of the line, as the
/// foreground colour and the byte length of each; `None` when highlighting
/// fails. The runs depend on the lines highlighted before.
#[verifier::external_body]
fn highlight_runs(
    hl: &mut syntect::easy::HighlightLines,
    line: &str,
    assets: &SyntaxAssets,
) -> Option<Vec<(u8, u8, u8, usize)>> {
    let runs = hl.highlight_line(line, &assets.syntaxes).ok()?;
    Some(runs.iter().map(|(st, t)| (st.foreground.r, st.foreground.g, st.foreground.b, t.len())).collect())
}

impl SyntaxAssets {
    /// The bundled syntaxes (with newlines) and themes.
    pub fn load() -> (a: SyntaxAssets) {
        SyntaxAssets { syntaxes: load_syntaxes(), themes: load_themes() }
    }
}

/// Whether the bundled syntaxes read files with extension `ext` as
/// something other than plain text.
pub open spec fn has_syntax(ext: Seq<char>) -> bool {
    bundled_syntax_name(fallback(ext)) matches Some(n) && n != "Plain Text"@
}

/// Whether the bundled syntaxes highlight files with this extension (after
/// the JavaScript fallback); never for an empty extension.
pub fn has_syntax_for_extension(assets: &SyntaxAssets, ext: &str) -> (r: bool)
    ensures
        r == (ext@.len() > 0 && has_syntax(ext@)),
{
    if ext.is_empty() {
        return false;
    }
    let resolved = fallback_extension(ext);
    match syntax_name(assets, resolved.as_str()) {
        Some(n) => {
            let plain = String::from_str("Plain Text");
            !(n == plain)
        },
        None => false,
    }
}

/// A highlighter for files with this extension in the theme
/// `HIGHLIGHT_THEME`, `None` when the bundled syntaxes read them as plain
/// text or not at all (or the bundled themes lack it).
pub fn create_highlighter<'a>(assets: &'a SyntaxAssets, extension: &str) -> (r: Option<syntect::easy::HighlightLines<'a>>)
    ensures
        r is Some <==> has_syntax(extension@) && bundled_theme_exists(HIGHLIGHT_THEME@),
{
    if !has_theme(assets, HIGHLIGHT_THEME) {
        return None;
    }
    let resolved = fallback_extension(extension);
    match syntax_name(assets, resolved.as_str()) {
        Some(n) => {
            let plain = String::from_str("Plain Text");
            if n == plain {
                None
            } else {
                new_highlighter(assets, resolved.as_str(), HIGHLIGHT_THEME)
            }
        },
        None => None,
    }
}

/// `(red, green, blue, byte length)` of a styled run.
pub type Run = (u8, u8, u8, usize);

/// The tokens of the first `k` runs over a line of `len` bytes, and the byte
/// offset after them: a run yields a token, clipped to the line, when it
/// starts inside the line and its colour has a class.
pub open spec fn run_tokens(runs: Seq<Run>, len: u32, k: int) -> (Seq<TokenView>, int)
    decreases k,
{
    if k <= 0 {
        (Seq::empty(), 0)
    } else {
        let (ts, off) = run_tokens(runs, len, k - 1);
        let r = runs[k - 1];
        let end = if off + r.3 < len {
            off + r.3
        } else {
            len as int
        };
        let class = css_class(r.0, r.1, r.2);
        if off < len && end > off && class.len() > 0 {
            (ts.push((off as u32, end as u32, class)), off + r.3)
        } else {
            (ts, off + r.3)
        }
    }
}

proof fn lemma_run_tokens(runs: Seq<Run>, len: u32, k: int)
    requires
        0 <= k <= runs.len(),
    ensures
        run_tokens(runs, len, k).1 >= 0,
        forall|i: int| 0 <= i < run_tokens(runs, len, k).0.len() ==> {
            let t = #[trigger] run_tokens(runs, len, k).0[i];
            t.0 < t.1 <= len && t.2.len() > 0
        },
    decreases k,
{
    if k > 0 {
        lemma_run_tokens(runs, len, k - 1);
        let (ts, off) = run_tokens(runs, len, k - 1);
        assert forall|i: int| 0 <= i < run_tokens(runs, len, k).0.len() implies {
            let t = #[trigger] run_tokens(runs, len, k).0[i];
            t.0 < t.1 <= len && t.2.len() > 0
        } by {
            if i < ts.len() {
                assert(run_tokens(runs, len, k).0[i] == ts[i]);
            }
        }
    }
}

/// The syntax tokens of a line of `content_len` bytes from its styled runs.
pub fn tokens_from_runs(runs: &Vec<Run>, content_len: u32) -> (r: Vec<SyntaxToken>)
    ensures
        token_views(r@) == run_tokens(runs@, content_len, runs@.len() as int).0,
{
    let mut out: Vec<SyntaxToken> = Vec::new();
    let mut offset: u64 = 0;
    let len = content_len as u64;
    let n = runs.len();
    for k in 0..n
        invariant
            n == runs@.len(),
            len == content_len,
            token_views(out@) == run_tokens(runs@, content_len, k as int).0,
            offset as int == (if run_tokens(runs@, content_len, k as int).1 < len {
                run_tokens(runs@, content_len, k as int).1
            } else {
                len as int
            }),
            run_tokens(runs@, content_len, k as int).1 >= 0,
    {
        let (r, g, b, l) = runs[k];
        let l64 = l as u64;
        let remaining = len - offset;
        let end = if l64 < remaining {
            offset + l64
        } else {
            len
        };
        let class = color_to_css_class(r, g, b);
        if offset < len && end > offset && !class.is_empty() {
            let ghost before = token_views(out@);
            out.push(SyntaxToken { start: offset as u32, end: end as u32, scope: String::from_str(class) });
            assert(token_views(out@) =~= before.push((offset as u32, end as u32, class@)));
        }
        offset = end;
    }
    out
}

/// The syntax tokens of one line, continuing from the lines the highlighter
/// saw before: byte ranges within the line, each with a non-empty class.
pub fn highlight_line_with(
    assets: &SyntaxAssets,
    highlighter: &mut syntect::easy::HighlightLines,
    content: &str,
) -> (r: Vec<SyntaxToken>)
    requires
        content.len() <= u32::MAX,
    ensures
        exists|runs: Seq<Run>| token_views(r@) == run_tokens(runs, content.len() as u32, runs.len() as int).0,
        forall|i: int| 0 <= i < r@.len() ==> (#[trigger] r@[i]).start < r@[i].end <= content.len() && r@[i].scope@.len() > 0,
{
    let mut cs = chars_of(content);
    let n = cs.len();
    if n == 0 || cs[n - 1] != '\n' {
        cs.push('\n');
    }
    let normalized = string_of(&cs);
    let runs: Vec<Run> = match highlight_runs(highlighter, normalized.as_str(), assets) {
        Some(v) => v,
        None => Vec::new(),
    };
    let len = content.len() as u32;
    let tokens = tokens_from_runs(&runs, len);
    proof {
        lemma_run_tokens(runs@, len, runs@.len() as int);
        assert forall|i: int| 0 <= i < tokens@.len() implies (#[trigger] tokens@[i]).start < tokens@[i].end <= content.len() && tokens@[i].scope@.len() > 0 by {
            assert(token_views(tokens@)[i] == tokens@[i]@);
        }
    }
    tokens
}

/// The syntax tokens of one line highlighted on its own with a fresh
/// highlighter for the extension: the tokens of the styled runs `syntect`
/// gives the line (none when it fails), clipped to the line; none when the
/// extension has no syntax.
pub fn highlight_line_tokens(assets: &SyntaxAssets, content: &str, extension: &str) -> (r: Vec<SyntaxToken>)
    requires
        content.len() <= u32::MAX,
    ensures
        !has_syntax(extension@) ==> r@.len() == 0,
        has_syntax(extension@) ==> exists|runs: Seq<Run>|
            token_views(r@) == run_tokens(runs, content.len() as u32, runs.len() as int).0,
        forall|i: int| 0 <= i < r@.len() ==> (#[trigger] r@[i]).start < r@[i].end <= content.len() && r@[i].scope@.len() > 0,
{
    match create_highlighter(assets, extension) {
        Some(mut hl) => highlight_line_with(assets, &mut hl, content),
        None => {
            let r: Vec<SyntaxToken> = Vec::new();
            let ghost none = Seq::<Run>::empty();
            assert(token_views(r@) =~= run_tokens(none, content.len() as u32, none.len() as int).0);
            r
        },
    }
}

} // verus!
