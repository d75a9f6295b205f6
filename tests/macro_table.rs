use mdbook_katex::macros::{parse_macro_line, MacroTable};
use mdbook_katex::processor::KatexProcessor;

#[test]
fn loads_escape_lines_and_ignores_others() {
    let table = KatexProcessor::load_macros("\\foo:bar\n\\baz:qux\nignored line\n");
    assert_eq!(table.get("\\foo"), Some(&"bar".to_string()));
    assert_eq!(table.get("\\baz"), Some(&"qux".to_string()));
    assert_eq!(table.get("ignored line"), None);
    assert_eq!(table.get(""), None);
}

#[test]
fn line_without_colon_is_skipped() {
    let table = KatexProcessor::load_macros("\\broken\n\\ok:1\n");
    assert_eq!(table.get("\\broken"), None);
    assert_eq!(table.get("\\ok"), Some(&"1".to_string()));
}

#[test]
fn body_is_everything_after_first_colon() {
    assert_eq!(
        parse_macro_line("\\pair:a:b"),
        Some(("\\pair".to_string(), "a:b".to_string()))
    );
    assert_eq!(parse_macro_line("\\e:"), Some(("\\e".to_string(), "".to_string())));
    assert_eq!(parse_macro_line("x:y"), None);
    assert_eq!(parse_macro_line(""), None);
}

#[test]
fn later_definition_wins() {
    let table = KatexProcessor::load_macros("\\r:1\n\\r:2\n");
    assert_eq!(table.get("\\r"), Some(&"2".to_string()));
}

#[test]
fn empty_source_gives_empty_table() {
    let table = KatexProcessor::load_macros("");
    assert_eq!(table.get("\\foo"), None);
    let p = KatexProcessor::new(None);
    assert_eq!(p.macros.get("\\foo"), None);
}

#[test]
fn insert_replaces() {
    let mut table = MacroTable::new();
    table.insert("\\a".to_string(), "1".to_string());
    table.insert("\\b".to_string(), "2".to_string());
    table.insert("\\a".to_string(), "3".to_string());
    assert_eq!(table.get("\\a"), Some(&"3".to_string()));
    assert_eq!(table.get("\\b"), Some(&"2".to_string()));
}

#[test]
fn processor_takes_macros_from_source() {
    let p = KatexProcessor::new(Some("\\RR:\\mathbb{R}\n".to_string()));
    assert_eq!(p.macros.get("\\RR"), Some(&"\\mathbb{R}".to_string()));
}
