use markup_reflow::ast::comment::Comment;
use markup_reflow::ast::doctype::Doctype;
use markup_reflow::ast::element::Element;
use markup_reflow::ast::{Node, ParseError};

#[test]
fn nodes_from_conversions() {
    assert_eq!(Node::from(Comment("a")), Node::Comment(Comment("a")));
    assert_eq!(
        Node::from(Doctype { legacy: true }),
        Node::Doctype(Doctype { legacy: true })
    );
    assert_eq!(
        Node::from(Element::Void { name: "br", attributes: vec![] }),
        Node::Element(Element::Void { name: "br", attributes: vec![] })
    );
}

#[test]
fn non_text_tries_comment_doctype_element() {
    assert_eq!(
        Node::parse_non_text("<!-- c --><p>"),
        Ok(("<p>", Node::Comment(Comment("c"))))
    );
    assert_eq!(
        Node::parse_non_text("<!doctype html> x"),
        Ok((" x", Node::Doctype(Doctype { legacy: false })))
    );
    assert_eq!(
        Node::parse_non_text("<hr>x"),
        Ok(("x", Node::Element(Element::Void { name: "hr", attributes: vec![] })))
    );
    assert_eq!(Node::parse_non_text("text"), Err(ParseError));
    assert_eq!(Node::parse_non_text(" <hr>"), Err(ParseError));
    assert_eq!(Node::parse_non_text("<p>open"), Err(ParseError));
}

#[test]
fn text_runs_to_the_end_of_input() {
    assert_eq!(
        Node::parse_text("  some text \n"),
        Ok(("", (Node::Text("some text"), None)))
    );
    assert_eq!(
        Node::parse_text("a < b <= c"),
        Ok(("", (Node::Text("a < b <= c"), None)))
    );
}

#[test]
fn text_stops_at_an_end_tag() {
    assert_eq!(
        Node::parse_text("some text  </p> more"),
        Ok(("</p> more", (Node::Text("some text"), None)))
    );
}

#[test]
fn text_stops_at_a_node() {
    assert_eq!(
        Node::parse_text(" x <br> y"),
        Ok((
            " y",
            (
                Node::Text("x"),
                Some(Node::Element(Element::Void { name: "br", attributes: vec![] }))
            )
        ))
    );
    assert_eq!(
        Node::parse_text("x<!--c-->y"),
        Ok(("y", (Node::Text("x"), Some(Node::Comment(Comment("c"))))))
    );
}

#[test]
fn text_needs_a_character() {
    assert_eq!(Node::parse_text(""), Err(ParseError));
    assert_eq!(Node::parse_text(" \n\t\u{a0}"), Err(ParseError));
}

#[test]
fn text_takes_what_does_not_parse() {
    assert_eq!(
        Node::parse_text("<Foo>x</foo>"),
        Ok(("</foo>", (Node::Text("<Foo>x"), None)))
    );
    assert_eq!(
        Node::parse_text("<p <br> x"),
        Ok((
            " x",
            (
                Node::Text("<p"),
                Some(Node::Element(Element::Void { name: "br", attributes: vec![] }))
            )
        ))
    );
}

#[test]
fn many_of_nothing() {
    assert_eq!(Node::parse_many(""), Ok(("", vec![])));
    assert_eq!(Node::parse_many(" \n "), Ok(("", vec![])));
}

#[test]
fn many_stops_in_front_of_an_end_tag() {
    assert_eq!(
        Node::parse_many("  a <br> </div> b"),
        Ok((
            "</div> b",
            vec![
                Node::Text("a"),
                Node::Element(Element::Void { name: "br", attributes: vec![] }),
            ]
        ))
    );
    assert_eq!(Node::parse_many("</p>"), Ok(("</p>", vec![])));
}

#[test]
fn many_takes_every_kind_of_node() {
    assert_eq!(
        Node::parse_many("<!DOCTYPE html>\n<!-- c -->\n<p class=\"x\">Hi <b>you</b></p>\n"),
        Ok((
            "",
            vec![
                Node::Doctype(Doctype { legacy: false }),
                Node::Comment(Comment("c")),
                Node::Element(Element::Normal {
                    name: "p",
                    attributes: vec![("class", Some("x"))],
                    content: vec![
                        Node::Text("Hi"),
                        Node::Element(Element::Normal {
                            name: "b",
                            attributes: vec![],
                            content: vec![Node::Text("you")],
                        }),
                    ],
                }),
            ]
        ))
    );
}

#[test]
fn many_turns_a_mismatched_element_into_text() {
    assert_eq!(
        Node::parse_many("<div><Foo>x</foo></div>"),
        Ok((
            "</foo></div>",
            vec![Node::Text("<div><Foo>x")]
        ))
    );
    assert_eq!(
        Node::parse_many("<p>a <b>c</p>"),
        Ok((
            "",
            vec![Node::Element(Element::Normal {
                name: "p",
                attributes: vec![],
                content: vec![Node::Text("a <b>c")],
            })]
        ))
    );
}

#[test]
fn many_handles_a_long_run_of_text() {
    let mut input = String::new();
    for _ in 0..20000 {
        input.push_str("word ");
    }
    let (rest, nodes) = Node::parse_many(&input).unwrap();
    assert_eq!(rest, "");
    assert_eq!(nodes.len(), 1);
    assert_eq!(nodes[0], Node::Text(input.trim_end()));
}
