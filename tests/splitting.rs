use mdbook_katex::split::{split_pieces, split_segments, Segment};

fn lit(s: &str) -> Segment {
    Segment::Literal(s.to_string())
}

fn expr(s: &str) -> Segment {
    Segment::Expression(s.to_string())
}

#[test]
fn text_without_delimiter_is_one_literal() {
    assert_eq!(split_segments("plain text, no math", "$"), vec![lit("plain text, no math")]);
    assert_eq!(split_segments("", "$$"), vec![lit("")]);
}

#[test]
fn two_delimiters_give_literal_expression_literal() {
    assert_eq!(split_segments("a$b$c", "$"), vec![lit("a"), expr("b"), lit("c")]);
    assert_eq!(
        split_segments("before $$x+y$$ after", "$$"),
        vec![lit("before "), expr("x+y"), lit(" after")]
    );
}

#[test]
fn odd_delimiter_count_leaves_trailing_expression() {
    // An unclosed expression is still treated as an expression.
    assert_eq!(
        split_segments("x $y$ z $w", "$"),
        vec![lit("x "), expr("y"), lit(" z "), expr("w")]
    );
    assert_eq!(split_segments("only $open", "$"), vec![lit("only "), expr("open")]);
}

#[test]
fn block_split_keeps_inline_markers_inside_expression() {
    assert_eq!(
        split_segments("$$ a $ b $ c $$", "$$"),
        vec![lit(""), expr(" a $ b $ c "), lit("")]
    );
}

#[test]
fn empty_block_expression() {
    assert_eq!(split_segments("$$$$", "$$"), vec![lit(""), expr(""), lit("")]);
}

#[test]
fn three_markers_split_leftmost_first() {
    assert_eq!(split_pieces("$$$", "$$"), vec!["".to_string(), "$".to_string()]);
    assert_eq!(split_pieces("a\nb\n", "\n"), vec!["a".to_string(), "b".to_string(), "".to_string()]);
}

#[test]
fn segment_accessors() {
    let segs = split_segments("p $q$", "$");
    assert!(!segs[0].is_expression());
    assert!(segs[1].is_expression());
    assert_eq!(segs[1].text(), "q");
    assert_eq!(segs[2].text(), "");
}
