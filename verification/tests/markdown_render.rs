use spec_viewer::markdown::code::push_code_block;
use spec_viewer::markdown::delegated::{footnotes_in_definition_order, locate_heading_lines, scan_headings_and_footnotes};
use spec_viewer::markdown::mermaid::engine::builtin::BuiltinEngine;
use spec_viewer::markdown::mermaid::engine::EngineRegistry;
use spec_viewer::markdown::table::render_table;
use spec_viewer::markdown::theme::{list_marker_char, Theme, QUOTE_BAR};
use spec_viewer::markdown::wrap::wrap_spans;
use spec_viewer::markdown::{render, render_with, strip_frontmatter, Line, LineStyle, Rendered, Span, SpanStyle};
use unicode_segmentation::UnicodeSegmentation;
use unicode_width::{UnicodeWidthChar, UnicodeWidthStr};

fn line_total_width(line: &Line) -> usize {
    let text: String = line.spans.iter().map(|s| s.text.as_str()).collect();
    let w: usize = text
        .graphemes(true)
        .map(|g| g.chars().map(|c| UnicodeWidthChar::width(c).unwrap_or(0) as usize).sum::<usize>())
        .sum();
    w + line.indent as usize
}

fn all_text(rendered: &Rendered) -> String {
    rendered
        .lines
        .iter()
        .map(|l| l.spans.iter().map(|s| s.text.as_str()).collect::<String>())
        .collect::<Vec<_>>()
        .join(" ")
}

fn cell(s: &str) -> Vec<Span> {
    vec![Span { text: s.to_string(), style: SpanStyle::Plain }]
}

fn render_rows(rows: &[Vec<Vec<Span>>], width: u16) -> Vec<String> {
    let mut out = Vec::new();
    let mut plain = Vec::new();
    render_table(rows, width, &mut out, &mut plain);
    plain
}

fn code_block(lang: &str, code: &str, width: u16) -> (Vec<Line>, Vec<String>) {
    let reg: EngineRegistry<BuiltinEngine> = EngineRegistry::new();
    let mut out = Vec::new();
    let mut plain = Vec::new();
    push_code_block(&reg, lang, code, width, &mut out, &mut plain);
    (out, plain)
}

fn span_width(s: &str) -> usize {
    s.graphemes(true).map(|g| g.chars().map(|c| UnicodeWidthChar::width(c).unwrap_or(0)).sum::<usize>()).sum()
}

#[test]
fn test_paragraph_mixed_width() {
    let md = "안녕 Hello 세계 this is a test paragraph to wrap.";
    let w = 40u16;
    let rendered = render(md, w);
    for line in rendered.lines.iter() {
        assert!(line_total_width(line) <= w as usize, "paragraph line too wide");
    }
}

#[test]
fn test_cjk_wrap_no_split() {
    let text = "안녕하세요안녕하세요안녕하세요안녕하세요안녕하세요";
    let rendered = render(text, 40);
    for line in rendered.lines.iter() {
        let t: String = line.spans.iter().map(|s| s.text.as_str()).collect();
        assert!(!t.contains('-'));
    }
}

#[test]
fn test_nested_list_indents() {
    let md = "- A\n  - B\n    - C";
    let rendered = render(md, 40);
    let mut indents = Vec::new();
    for line in rendered.lines.iter() {
        if let Some(LineStyle::ListItem(_)) = line.style {
            indents.push(line.indent);
        }
    }
    assert_eq!(indents, vec![0, 2, 4]);
    for line in rendered.lines.iter() {
        assert!(line_total_width(line) <= 40, "list line too wide");
    }
}

#[test]
fn test_headings_anchors_and_text() {
    let md = "## Title\nBody text\n\n### Subheading";
    let rendered = render(md, 40);
    assert_eq!(rendered.headings.len(), 2);
    assert_eq!(rendered.headings[0].level, 2);
    assert_eq!(rendered.headings[0].text, "Title");
    assert_eq!(rendered.headings[1].level, 3);
    assert_eq!(rendered.headings[1].text, "Subheading");
}

#[test]
fn test_blockquote() {
    let md = "> quoted text";
    let rendered = render(md, 40);
    let has_quote = rendered.lines.iter().any(|l| matches!(l.style, Some(LineStyle::Quote)));
    assert!(has_quote, "expected a quote line");
    for line in rendered.lines.iter() {
        assert!(line_total_width(line) <= 40, "quote line too wide");
    }
}

#[test]
fn test_heading_level_styles() {
    let rendered = render("# H1\n## H2\n### H3", 40);
    let levels: Vec<u8> = rendered
        .lines
        .iter()
        .filter_map(|l| match l.style {
            Some(LineStyle::Heading(lv)) => Some(lv),
            _ => None,
        })
        .collect();
    assert_eq!(levels, vec![1, 2, 3]);
}

#[test]
fn test_checkbox_symbols() {
    let rendered = render("- [x] done\n- [ ] todo", 40);
    let text = all_text(&rendered);
    assert!(text.contains('\u{2713}'), "checked box glyph (✓) missing in: {text}");
    assert!(text.contains('\u{2610}'), "unchecked box glyph missing in: {text}");
}

#[test]
fn test_yaml_frontmatter_stripped() {
    let md = "---\ntitle: 설정값\npriority: high\n---\n# Title\nbody";
    let rendered = render(md, 40);
    assert_eq!(rendered.headings.len(), 1, "expected only the real heading");
    assert_eq!(rendered.headings[0].text, "Title");
    let all = all_text(&rendered);
    assert!(!all.contains("title:") && !all.contains("priority:"), "frontmatter leaked: {all}");
}

#[test]
fn test_link_text_and_url() {
    let rendered = render("visit [openai](https://openai.com) now", 40);
    let all = all_text(&rendered);
    assert!(all.contains("(https://openai.com)"), "link URL missing in: {all}");
    let link_spans: Vec<&Span> = rendered
        .lines
        .iter()
        .flat_map(|l| l.spans.iter())
        .filter(|s| s.style == SpanStyle::Link)
        .collect();
    assert!(link_spans.iter().any(|s| s.text == "openai"), "link text not styled Link");
}

#[test]
fn test_image_alt_and_url() {
    let rendered = render("text ![diagram](./a.png) end", 40);
    let all = all_text(&rendered);
    assert!(all.contains("\u{1F5BC} diagram (./a.png)"), "image label missing in: {all}");
}

#[test]
fn test_emphasis_styles() {
    let rendered = render("**bold** *italic* ~~strike~~ `code`", 40);
    let spans: Vec<&Span> = rendered.lines.iter().flat_map(|l| l.spans.iter()).collect();
    assert!(spans.iter().any(|s| s.style == SpanStyle::Bold && s.text.contains("bold")));
    assert!(spans.iter().any(|s| s.style == SpanStyle::Italic && s.text.contains("italic")));
    assert!(spans.iter().any(|s| s.style == SpanStyle::Strikethrough && s.text.contains("strike")));
    assert!(spans.iter().any(|s| s.style == SpanStyle::Code && s.text.contains("code")));
}

#[test]
fn test_table_five_cols() {
    let md = "| A | B | C | D | E |\n| --- | --- | --- | --- | --- |\n| 1 | 2 | 3 | 4 | 5 |\n| aaaa | bbbb | cccc | dddd | eeee |";
    for w in [40u16, 80u16] {
        let rendered = render(md, w);
        let has_table = rendered.lines.iter().any(|l| matches!(l.style, Some(LineStyle::Table)));
        assert!(has_table, "expected table lines at width {w}");
        for line in rendered.lines.iter() {
            assert!(line_total_width(line) <= w as usize, "table line too wide at width {w}");
        }
        let all = all_text(&rendered);
        for needle in ["A", "E", "aaaa", "eeee"] {
            assert!(all.contains(needle), "cell content lost at width {w}: {all}");
        }
    }
}

fn is_subsequence(joined_preserving_order: &str, needle: &str) -> bool {
    let mut it = joined_preserving_order.chars();
    needle.chars().all(|n| it.find(|&h| h == n).is_some())
}

#[test]
fn test_table_cell_wrap() {
    let md = "| 헤더 | 내용 |\n| --- | --- |\n| 짧음 | 정말정말긴설명텍스트입니다정말정말긴설명텍스트입니다정말 |";
    let w = 40u16;
    let rendered = render(md, w);
    for line in rendered.lines.iter() {
        assert!(line_total_width(line) <= w as usize, "table line too wide: {:?}", line_total_width(line));
    }
    let all = all_text(&rendered);
    let ordered: String = all.chars().filter(|c| !c.is_whitespace()).collect();
    for needle in ["헤더", "내용", "짧음", "정말정말긴설명텍스트입니다정말정말긴설명텍스트입니다정말"] {
        assert!(is_subsequence(&ordered, needle), "cell text lost after wrap: {all}");
    }
}

#[test]
fn test_footnote_reference_and_collected_at_end() {
    let md = "본문 참조[^a] 그리고 더[^b].\n\n[^a]: 첫 각주 내용\n[^b]: 둘째 각주 내용";
    let rendered = render(md, 40);
    assert_eq!(rendered.footnotes.len(), 2);
    assert_eq!(rendered.footnotes[0].index, 1);
    assert_eq!(rendered.footnotes[0].text, "첫 각주 내용");
    assert_eq!(rendered.footnotes[1].index, 2);
    assert_eq!(rendered.footnotes[1].text, "둘째 각주 내용");

    let all = all_text(&rendered);
    assert!(all.contains("참조[1]"), "reference marker [1] missing in: {all}");
    assert!(all.contains("더[2]"), "reference marker [2] missing in: {all}");
    assert!(all.contains("[1] 첫 각주 내용"), "footnote body [1] missing at document end in: {all}");
    assert!(all.contains("[2] 둘째 각주 내용"), "footnote body [2] missing at document end in: {all}");

    let occurrences = rendered.plain.iter().filter(|l| l.contains("첫 각주 내용")).count();
    assert_eq!(occurrences, 1, "footnote body must appear exactly once, at the end");
}

#[test]
fn test_no_footnotes_means_no_footnote_section() {
    let rendered = render("plain text, no footnotes here", 40);
    assert!(rendered.footnotes.is_empty());
    assert!(!all_text(&rendered).contains("각주"));
}

#[test]
fn test_nfd_input_composes_to_nfc_end_to_end() {
    let nfd = "\u{1112}\u{1161}\u{11ab}\u{1100}\u{1173}\u{11af} \u{1112}\u{1167}\u{11ab}\u{1109}\u{1161}\u{11bc}";
    let rendered = render(nfd, 40);
    let all = all_text(&rendered);
    assert!(all.contains("한글"), "NFD input did not compose to 한글 in: {all:?}");
    assert!(all.contains("현상"), "NFD input did not compose to 현상 in: {all:?}");
    assert!(!all.chars().any(|c| ('\u{1100}'..='\u{11FF}').contains(&c)), "leftover decomposed jamo in: {all:?}");
}

#[test]
fn test_korean_paragraph_word_wrap_width_40() {
    let md = "이 문단은 한글 어절 단위 줄바꿈이 폭 40에서도 단어 중간을 끊지 않고 \
              공백 경계에서만 줄이 바뀌는지 확인하기 위한 대표 픽스처 문장입니다.";
    let rendered = render(md, 40);
    for line in &rendered.lines {
        assert!(line_total_width(line) <= 40, "line exceeds width 40");
    }
    let all = all_text(&rendered);
    for word in ["이 문단은", "한글 어절", "확인하기", "픽스처 문장입니다."] {
        assert!(
            all.split_whitespace().collect::<Vec<_>>().join(" ").contains(word),
            "word boundary broken near {word:?} in: {all:?}"
        );
    }
}

#[test]
fn short_table_uses_content_width_not_pane_width() {
    let rows = vec![vec![cell("aa"), cell("b"), cell("ccc")], vec![cell("d"), cell("ee"), cell("f")]];
    let plain = render_rows(&rows, 80);
    assert!(!plain.is_empty());
    for line in &plain {
        assert_eq!(UnicodeWidthStr::width(line.as_str()), 17, "table must use content width (17), not fill the 80-wide pane: {line:?}");
    }
}

#[test]
fn separators_between_header_and_body_rows() {
    let rows = vec![
        vec![cell("h1"), cell("h2")],
        vec![cell("a"), cell("b")],
        vec![cell("c"), cell("d")],
        vec![cell("e"), cell("f")],
    ];
    let mut out = Vec::new();
    let mut plain = Vec::new();
    render_table(&rows, 80, &mut out, &mut plain);
    let seps = plain.iter().filter(|l| l.starts_with('├')).count();
    assert_eq!(seps, 3, "expected a ├ separator after the header and between each of the 3 body rows (got {seps}):\n{}", plain.join("\n"));
    let header_line = out.iter().find(|l| l.spans.iter().any(|s| s.text.contains("h1"))).expect("header row rendered");
    let has_bold_cell = header_line.spans.iter().any(|s| s.style == SpanStyle::Bold);
    assert!(has_bold_cell, "header cells must render bold (theme.table_header)");
}

#[test]
fn wide_table_wraps_within_avail() {
    let rows = vec![
        vec![cell("name"), cell("value"), cell("note")],
        vec![cell("alpha"), cell("a very long value that must wrap inside its column"), cell("x")],
    ];
    let plain = render_rows(&rows, 40);
    assert!(!plain.is_empty());
    for line in &plain {
        assert!(UnicodeWidthStr::width(line.as_str()) <= 40, "row exceeds avail: {line:?}");
    }
    let data_lines = plain.iter().filter(|l| l.starts_with('│')).count();
    assert!(data_lines > 2, "cells should wrap inside their columns");
}

#[test]
fn tiny_avail_keeps_min_width_without_panic() {
    let rows = vec![
        vec![cell("h1"), cell("h2"), cell("h3")],
        vec![cell("a very long cell that does not fit"), cell("x"), cell("y")],
    ];
    let plain = render_rows(&rows, 3);
    assert!(!plain.is_empty());
    let top = plain.first().expect("table rendered");
    let inner = top.trim_start_matches('┌').trim_end_matches('┐');
    for seg in inner.split('┬') {
        assert!(seg.len() >= 3, "column must keep min width 1: {seg:?}");
    }
}

#[test]
fn test_heading_rule_lines_present() {
    let theme = Theme::default();
    let rendered = render_with("# H1\n## H2\n### H3", 40, &theme);
    let texts: Vec<String> = rendered.lines.iter().map(|l| l.spans.iter().map(|s| s.text.as_str()).collect()).collect();
    let h1_idx = rendered.headings.iter().find(|h| h.level == 1).unwrap().line;
    let h2_idx = rendered.headings.iter().find(|h| h.level == 2).unwrap().line;
    let h3_idx = rendered.headings.iter().find(|h| h.level == 3).unwrap().line;
    assert!(texts[h1_idx + 1].chars().all(|c| c == '━') && !texts[h1_idx + 1].is_empty());
    assert!(texts[h2_idx + 1].chars().all(|c| c == '─') && !texts[h2_idx + 1].is_empty());
    if h3_idx + 1 < texts.len() {
        assert!(!texts[h3_idx + 1].chars().all(|c| c == '━' || c == '─'));
    }
}

#[test]
fn test_heading_rule_matches_text_width() {
    let theme = Theme::default();
    let rendered = render_with("# 안녕하세요", 40, &theme);
    let h_idx = rendered.headings[0].line;
    let heading_text: String = rendered.lines[h_idx].spans.iter().map(|s| s.text.as_str()).collect();
    let rule_text: String = rendered.lines[h_idx + 1].spans.iter().map(|s| s.text.as_str()).collect();
    let disp_w: usize = span_width(&heading_text);
    let rule_w: usize = rule_text.chars().count();
    assert_eq!(rule_w, disp_w, "heading rule width should match heading display width");
}

#[test]
fn test_span_style_distinguishes_emphasis() {
    let theme = Theme::default();
    assert_ne!(theme.span_style(SpanStyle::Bold), theme.span_style(SpanStyle::Italic));
    assert_ne!(theme.span_style(SpanStyle::Italic), theme.span_style(SpanStyle::Strikethrough));
    assert_ne!(theme.span_style(SpanStyle::Code), theme.span_style(SpanStyle::Plain));
}

#[test]
fn test_list_marker_chars_by_depth() {
    assert_eq!(list_marker_char(1), '•');
    assert_eq!(list_marker_char(2), '◦');
    assert_eq!(list_marker_char(3), '▪');
    assert_eq!(list_marker_char(4), '▪');
}

#[test]
fn test_code_truncation() {
    let code = "this is a very long line that exceeds width";
    let (out, _plain) = code_block("text", code, 10);
    assert!(out[0].spans[0].text.ends_with('…'));
    assert!(span_width(&out[0].spans[0].text) <= 10);
}

#[test]
fn test_mermaid_fallback_empty() {
    let code = "graph TB\n  %% just a comment";
    let (out, _plain) = code_block("mermaid", code, 80);
    assert_eq!(out[0].spans[0].text, "Mermaid (Empty): flowchart");
    assert_eq!(out[1].spans[0].text, "graph TB");
    assert_eq!(out[2].spans[0].text, "  %% just a comment");
}

#[test]
fn test_lang_alias_resolves_to_real_tokenized_syntax() {
    for (lang, code) in [
        ("rust", "fn main() { let x = 1; }"),
        ("python", "def f(x):"),
        ("typescript", "const x: number = 1;"),
        ("ts", "const x: number = 1;"),
    ] {
        let (out, _plain) = code_block(lang, code, 80);
        assert!(out[0].spans.len() > 1, "{lang} fell back to plain-text tokenization (1 span) instead of real syntax");
    }
}

#[test]
fn test_tab_expands_to_four_spaces() {
    let (_out, plain) = code_block("text", "\tindented", 80);
    assert_eq!(plain[0], "    indented");
}

#[test]
fn test_syntax_highlighting_basic() {
    let (out, _plain) = code_block("rust", "fn main() {}", 80);
    let has_code_style = out[0].spans.iter().any(|s| s.style == SpanStyle::Code);
    assert!(has_code_style, "Should have syntax highlighting applied");
}

#[test]
fn scans_headings_in_order_with_level() {
    let (headings, _) = scan_headings_and_footnotes("# Title\nbody\n\n## Sub\nmore");
    assert_eq!(headings, vec![(1, "Title".to_string()), (2, "Sub".to_string())]);
}

#[test]
fn scans_footnote_definitions() {
    let (_, footnotes) = scan_headings_and_footnotes("ref[^a] and[^b]\n\n[^a]: first note\n[^b]: second note");
    assert_eq!(footnotes, vec![("a".to_string(), "first note".to_string()), ("b".to_string(), "second note".to_string())]);
}

#[test]
fn locates_headings_and_advances_past_duplicates() {
    let plain = vec!["Intro".to_string(), "Title".to_string(), "body".to_string(), "Title".to_string()];
    let headings = vec![(1u8, "Title".to_string()), (1u8, "Title".to_string())];
    let anchors = locate_heading_lines(&plain, &headings);
    assert_eq!(anchors.len(), 2);
    assert_eq!(anchors[0].line, 1);
    assert_eq!(anchors[1].line, 3);
}

#[test]
fn missing_heading_is_skipped_not_guessed() {
    let plain = vec!["unrelated line".to_string()];
    let headings = vec![(1u8, "Nowhere".to_string())];
    assert!(locate_heading_lines(&plain, &headings).is_empty());
}

#[test]
fn footnotes_numbered_in_definition_order() {
    let footnotes = footnotes_in_definition_order(vec![
        ("a".to_string(), "first".to_string()),
        ("b".to_string(), "second".to_string()),
    ]);
    assert_eq!(footnotes[0].index, 1);
    assert_eq!(footnotes[0].text, "first");
    assert_eq!(footnotes[1].index, 2);
    assert_eq!(footnotes[1].text, "second");
}

#[test]
fn quote_lines_start_with_the_bar() {
    let rendered = render("> quoted text", 40);
    let text: String = rendered.lines[0].spans.iter().map(|s| s.text.as_str()).collect();
    assert!(text.starts_with(QUOTE_BAR));
    assert_eq!(rendered.lines[0].spans[0].text, format!("{QUOTE_BAR} "));
}

#[test]
fn frontmatter_without_a_closing_rule_is_kept() {
    assert_eq!(strip_frontmatter("---\ntitle: x\nbody"), "---\ntitle: x\nbody");
    assert_eq!(strip_frontmatter("---\na: b\n---\nrest"), "rest");
    assert_eq!(strip_frontmatter("plain"), "plain");
}

#[test]
fn wrapped_lines_fit_the_width_and_keep_the_words() {
    let spans = vec![Span { text: "alpha beta gamma delta".to_string(), style: SpanStyle::Plain }];
    let lines = wrap_spans(&spans, 11, 0);
    let texts: Vec<String> = lines.iter().map(|l| l.iter().map(|s| s.text.as_str()).collect()).collect();
    assert_eq!(texts, vec!["alpha beta", "gamma delta"]);
}

#[test]
fn rule_renders_as_three_dashes_and_plain_matches_lines() {
    let rendered = render("a\n\n---\n\nb", 40);
    assert!(rendered.plain.iter().any(|l| l == "---"));
    assert_eq!(rendered.lines.len(), rendered.plain.len());
}
