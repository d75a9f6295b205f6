use mdbook_katex::macros::MacroTable;
use mdbook_katex::processor::{KatexProcessor, HEADER};
use mdbook_katex::render::{render_expression, splice};
use mdbook_katex::split::split_segments;

#[test]
fn document_without_math_is_header_and_text() {
    let p = KatexProcessor::new(None);
    let text = "# Title\n\nNo math at all here.\n";
    assert_eq!(p.process(text), format!("{}{}", HEADER, text));
    assert_eq!(p.process(""), HEADER.to_string());
}

#[test]
fn header_appears_once() {
    let p = KatexProcessor::new(None);
    let out = p.process("plain");
    assert!(out.starts_with("<link rel=\"stylesheet\""));
    assert!(out.ends_with("\n\nplain"));
    assert_eq!(out.matches("<link").count(), 1);
}

#[test]
fn failed_outcomes_keep_raw_expressions() {
    let segs = split_segments("a $b$ c $d$", "$");
    let rendered = vec![None; segs.len()];
    assert_eq!(splice(&segs, &rendered), "a b c d");
}

#[test]
fn given_outcomes_replace_expressions() {
    let segs = split_segments("a $b$ c $d$ e", "$");
    let rendered = vec![None, Some("<B>".to_string()), None, None, None];
    assert_eq!(splice(&segs, &rendered), "a <B> c d e");
}

#[test]
fn katex_renders_valid_expression() {
    let out = render_expression(&"x^2".to_string(), false, &MacroTable::new());
    assert_ne!(out, "x^2");
    assert!(out.contains("katex"));
}

#[test]
fn katex_failure_falls_back_to_raw_text() {
    let out = render_expression(&"\\frac{".to_string(), false, &MacroTable::new());
    assert_eq!(out, "\\frac{");
}

#[test]
fn block_math_rendered_in_display_mode() {
    let p = KatexProcessor::new(None);
    let out = p.process("see $$x$$ and $y$");
    assert!(out.starts_with(HEADER));
    assert!(out.contains("katex-display"));
    assert!(out.contains("see "));
    assert!(out.contains(" and "));
    assert!(!out.contains('$'));
}

#[test]
fn broken_block_keeps_inline_markers() {
    let p = KatexProcessor::new(None);
    let out = p.process("$$\\frac{ $a$ $$");
    assert_eq!(out, format!("{}{}", HEADER, "\\frac{ $a$ "));
}

#[test]
fn render_separator_inline_pass() {
    let p = KatexProcessor::new(None);
    let out = p.render_separator("t $\\frac{$ u", "$", false, &p.macros);
    assert_eq!(out, "t \\frac{ u");
}

#[test]
fn macros_reach_katex() {
    let p = KatexProcessor::new(Some("\\RR:\\mathbb{R}\n".to_string()));
    let with = p.render("$\\RR$", &p.macros);
    let without = p.render("$\\RR$", &MacroTable::new());
    assert_ne!(with, without);
}

#[test]
fn supported_renderer_is_html_only() {
    let p = KatexProcessor::new(None);
    assert!(p.supports_renderer("html"));
    assert!(!p.supports_renderer("latex"));
    assert!(!p.supports_renderer("htm"));
    assert_eq!(p.name(), "katex");
}

#[test]
fn empty_block_expression_is_still_rendered() {
    let p = KatexProcessor::new(None);
    let out = p.process("$$$$");
    assert!(out.starts_with(HEADER));
    assert!(out.len() > HEADER.len());
    assert!(out.contains("katex-display"));
}
