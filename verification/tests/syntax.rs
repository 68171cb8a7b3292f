use trunk_lib::git::syntax::{
    color_to_css_class, extension_from_path, has_syntax_for_extension, highlight_line_tokens, merge_spans,
    tokens_from_runs, SyntaxAssets,
};
use trunk_lib::git::types::{SyntaxToken, WordSpan};
use syntect::highlighting::Color;

#[test]
fn highlight_rust_produces_tokens() {
    let assets = SyntaxAssets::load();
    let tokens = highlight_line_tokens(&assets, "fn main() {", "rs");
    assert!(!tokens.is_empty(), "Rust code should produce syntax tokens");
    let has_keyword = tokens.iter().any(|t| t.scope == "syn-keyword");
    assert!(has_keyword, "Rust 'fn' should be highlighted as syn-keyword");
}

#[test]
fn highlight_unknown_extension_produces_no_tokens() {
    let assets = SyntaxAssets::load();
    let tokens = highlight_line_tokens(&assets, "some content here", "xyz999");
    assert!(tokens.is_empty(), "Unknown extension should produce no syntax tokens");
}

#[test]
fn extension_from_path_extracts_correctly() {
    assert_eq!(extension_from_path("main.rs"), "rs");
    assert_eq!(extension_from_path("src/lib/types.ts"), "ts");
    assert_eq!(extension_from_path("data.json"), "json");
    assert_eq!(extension_from_path("noext"), "");
    assert_eq!(extension_from_path(""), "");
}

#[test]
fn merge_spans_covers_full_range() {
    let syntax = vec![
        SyntaxToken { start: 0, end: 2, scope: "syn-keyword".to_string() },
        SyntaxToken { start: 3, end: 7, scope: "syn-function".to_string() },
    ];
    let word = vec![];
    let merged = merge_spans(&syntax, &word, 10);

    assert_eq!(merged[0].start, 0);
    assert_eq!(merged.last().unwrap().end, 10);
    for w in merged.windows(2) {
        assert_eq!(w[0].end, w[1].start, "No gaps between merged spans");
    }
}

#[test]
fn merge_spans_with_emphasis() {
    let syntax = vec![SyntaxToken { start: 0, end: 5, scope: "syn-keyword".to_string() }];
    let word = vec![
        WordSpan { start: 0, end: 3, emphasized: false },
        WordSpan { start: 3, end: 5, emphasized: true },
    ];
    let merged = merge_spans(&syntax, &word, 5);

    let emph_spans: Vec<_> = merged.iter().filter(|s| s.emphasized).collect();
    assert!(!emph_spans.is_empty(), "Should have emphasized spans from word diff");
    for s in &emph_spans {
        assert_eq!(s.syntax_class, "syn-keyword");
    }
}

#[test]
fn merge_spans_empty_content() {
    let merged = merge_spans(&[], &[], 0);
    assert!(merged.is_empty(), "Empty content should produce no spans");
}

#[test]
fn highlight_typescript_uses_js_fallback() {
    let assets = SyntaxAssets::load();
    let tokens = highlight_line_tokens(&assets, "const x: number = 42;", "ts");
    assert!(!tokens.is_empty(), "TypeScript should produce tokens via JS fallback");
    let has_keyword = tokens.iter().any(|t| t.scope == "syn-keyword");
    assert!(has_keyword, "'const' should be highlighted as syn-keyword");
}

#[test]
fn highlight_tsx_uses_js_fallback() {
    let assets = SyntaxAssets::load();
    assert!(has_syntax_for_extension(&assets, "tsx"));
    let tokens = highlight_line_tokens(&assets, "export default function App() {}", "tsx");
    assert!(!tokens.is_empty(), "TSX should produce tokens via JS fallback");
}

#[test]
fn highlight_svelte_uses_js_fallback() {
    let assets = SyntaxAssets::load();
    assert!(has_syntax_for_extension(&assets, "svelte"));
    let tokens = highlight_line_tokens(&assets, "const count = 0;", "svelte");
    assert!(!tokens.is_empty(), "Svelte should produce tokens via JS fallback");
}

#[test]
fn empty_extension_has_no_syntax() {
    let assets = SyntaxAssets::load();
    assert!(!has_syntax_for_extension(&assets, ""));
    assert!(has_syntax_for_extension(&assets, "rs"));
}

#[test]
fn tokens_from_runs_clip_to_line_and_skip_plain_text() {
    let runs = vec![(180u8, 142u8, 173u8, 2usize), (192, 197, 206, 1), (143, 161, 179, 4), (180, 142, 173, 10)];
    let tokens = tokens_from_runs(&runs, 9);
    assert_eq!(tokens.len(), 3);
    assert_eq!((tokens[0].start, tokens[0].end, tokens[0].scope.as_str()), (0, 2, "syn-keyword"));
    assert_eq!((tokens[1].start, tokens[1].end, tokens[1].scope.as_str()), (3, 7, "syn-function"));
    assert_eq!((tokens[2].start, tokens[2].end, tokens[2].scope.as_str()), (7, 9, "syn-keyword"));
}

#[test]
fn merge_spans_takes_first_covering_token_class() {
    let syntax = vec![
        SyntaxToken { start: 0, end: 4, scope: "syn-type".to_string() },
        SyntaxToken { start: 0, end: 4, scope: "syn-string".to_string() },
    ];
    let merged = merge_spans(&syntax, &[], 6);
    assert_eq!(merged.len(), 2);
    assert_eq!((merged[0].start, merged[0].end, merged[0].syntax_class.as_str()), (0, 4, "syn-type"));
    assert_eq!((merged[1].start, merged[1].end, merged[1].syntax_class.as_str()), (4, 6, ""));
}

fn css_for(color: Color) -> &'static str {
    color_to_css_class(color.r, color.g, color.b)
}

#[test]
fn color_mapping_keywords() {
    assert_eq!(css_for(Color { r: 180, g: 142, b: 173, a: 255 }), "syn-keyword");
}

#[test]
fn color_mapping_strings() {
    assert_eq!(css_for(Color { r: 163, g: 190, b: 140, a: 255 }), "syn-string");
}

#[test]
fn color_mapping_comments() {
    assert_eq!(css_for(Color { r: 101, g: 115, b: 126, a: 255 }), "syn-comment");
}

#[test]
fn color_mapping_default_text_empty() {
    assert_eq!(css_for(Color { r: 192, g: 197, b: 206, a: 255 }), "");
}

#[test]
fn color_mapping_unknown_fallback() {
    assert_eq!(css_for(Color { r: 1, g: 2, b: 3, a: 255 }), "");
}
