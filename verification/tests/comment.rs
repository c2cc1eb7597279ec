use markup_reflow::ast::comment::{normalize, Comment};
use markup_reflow::ast::ParseError;

#[test]
fn test_parse_inline_comment() {
    assert_eq!(
        Comment::parse("<!-- My comment -->"),
        Ok(("", Comment("My comment")))
    );
}

#[test]
fn test_parse_single_line_comment() {
    assert_eq!(
        Comment::parse(
            "<!--
                    My comment
                -->"
        ),
        Ok(("", Comment("My comment")))
    );
}

#[test]
fn test_parse_multiline_comment() {
    assert_eq!(
        Comment::parse(
            "<!--
                    My
                    multiline
                    comment
                -->"
        ),
        Ok((
            "",
            Comment("                    My\n                    multiline\n                    comment")
        ))
    );
}

#[test]
fn comment_needs_both_delimiters() {
    assert_eq!(Comment::parse("<!-- never closed"), Err(ParseError));
    assert_eq!(Comment::parse("<!- x -->"), Err(ParseError));
    assert_eq!(Comment::parse(" <!-- x -->"), Err(ParseError));
    assert_eq!(Comment::parse(""), Err(ParseError));
}

#[test]
fn comment_ends_at_the_first_closing_delimiter() {
    assert_eq!(
        Comment::parse("<!-- a --> b --> c"),
        Ok((" b --> c", Comment("a")))
    );
    assert_eq!(Comment::parse("<!---->rest"), Ok(("rest", Comment(""))));
    assert_eq!(Comment::parse("<!--   -->"), Ok(("", Comment(""))));
}

#[test]
fn comment_body_of_one_line_is_trimmed() {
    assert_eq!(normalize("  a  b \t"), "a  b");
    assert_eq!(normalize("\n\n   only line \n \n"), "only line");
    assert_eq!(normalize("\u{a0}x\u{2003}"), "x");
}

#[test]
fn comment_body_of_several_lines_is_kept_verbatim() {
    assert_eq!(normalize("\n  a \n\tb\n"), "  a \n\tb");
    assert_eq!(normalize("first\n  a\n  b\nlast"), "  a\n  b");
    assert_eq!(normalize(" x\n y\n z\n"), " y\n z");
}

#[test]
fn comment_body_with_one_line_break_between_text_is_empty() {
    assert_eq!(normalize("a\nb"), "");
    assert_eq!(Comment::parse("<!--a\nb-->"), Ok(("", Comment(""))));
}
