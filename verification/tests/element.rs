use markup_reflow::ast::element::util::{parse_attribute, parse_attribute_name, parse_tag_name};
use markup_reflow::ast::element::{is_void_name, Element};
use markup_reflow::ast::{Node, ParseError};

#[test]
fn test_parse_void_element() {
    assert_eq!(
        Element::parse("<input>"),
        Ok((
            "",
            Element::Void {
                name: "input",
                attributes: vec![],
            }
        ))
    );

    assert_eq!(
        Element::parse(r#"<input type="text" required>"#),
        Ok((
            "",
            Element::Void {
                name: "input",
                attributes: vec![("type", Some("text")), ("required", None)],
            }
        ))
    );
}

#[test]
fn test_parse_self_closing_element() {
    assert_eq!(
        Element::parse("<MyComponent/>"),
        Ok((
            "",
            Element::Void {
                name: "MyComponent",
                attributes: vec![],
            }
        ))
    );

    assert_eq!(
        Element::parse(r#"<MyComponent :attr="yes"/>"#),
        Ok((
            "",
            Element::Void {
                name: "MyComponent",
                attributes: vec![(":attr", Some("yes")),],
            }
        ))
    );
}

#[test]
fn test_parse_attribute_name() {
    assert_eq!(
        parse_attribute_name(r#"lang="ts" setup>"#),
        Ok((r#"="ts" setup>"#, "lang"))
    );

    assert_eq!(parse_attribute_name("setup>"), Ok((">", "setup")));

    assert!(parse_attribute_name("> text").is_err(),);
}

#[test]
fn test_parse_attribute() {
    assert_eq!(
        parse_attribute(r#"lang="ts" setup>"#),
        Ok((" setup>", ("lang", Some("ts"))))
    );

    assert_eq!(parse_attribute("setup>"), Ok((">", ("setup", None))));
}

#[test]
fn test_parse_tag_name() {
    assert_eq!(parse_tag_name("script>"), Ok((">", "script")));
    assert_eq!(parse_tag_name("script >"), Ok((" >", "script")));
    assert_eq!(parse_tag_name("script\t>"), Ok(("\t>", "script")));
    assert_eq!(parse_tag_name("script \t>"), Ok((" \t>", "script")));
    assert_eq!(
        parse_tag_name(r#"script lang="ts">"#),
        Ok((r#" lang="ts">"#, "script"))
    );
}

#[test]
fn attribute_name_stops_at_forbidden_characters() {
    assert_eq!(parse_attribute_name("a b"), Ok((" b", "a")));
    assert_eq!(parse_attribute_name("a\"b"), Ok(("\"b", "a")));
    assert_eq!(parse_attribute_name("a'b"), Ok(("'b", "a")));
    assert_eq!(parse_attribute_name("a/b"), Ok(("/b", "a")));
    assert_eq!(parse_attribute_name("a\u{7f}b"), Ok(("\u{7f}b", "a")));
    assert_eq!(parse_attribute_name("a\u{9f}b"), Ok(("\u{9f}b", "a")));
    assert_eq!(parse_attribute_name("a\u{fdd0}b"), Ok(("\u{fdd0}b", "a")));
    assert_eq!(parse_attribute_name("a\u{fdef}b"), Ok(("\u{fdef}b", "a")));
    assert_eq!(parse_attribute_name("a\u{fffe}b"), Ok(("\u{fffe}b", "a")));
    assert_eq!(parse_attribute_name("a\u{5ffff}b"), Ok(("\u{5ffff}b", "a")));
    assert_eq!(parse_attribute_name("a\u{10ffff}b"), Ok(("\u{10ffff}b", "a")));
}

#[test]
fn attribute_name_takes_everything_else() {
    assert_eq!(parse_attribute_name("@click.prevent="), Ok(("=", "@click.prevent")));
    assert_eq!(parse_attribute_name("v-on:\u{e9}t\u{e9}"), Ok(("", "v-on:\u{e9}t\u{e9}")));
    assert_eq!(parse_attribute_name("a\tb\nc<d"), Ok(("", "a\tb\nc<d")));
    assert_eq!(parse_attribute_name("a\u{a0}\u{fdcf}\u{fdf0}\u{fffd}"), Ok(("", "a\u{a0}\u{fdcf}\u{fdf0}\u{fffd}")));
}

#[test]
fn attribute_name_must_not_be_empty() {
    assert_eq!(parse_attribute_name(""), Err(ParseError));
    assert_eq!(parse_attribute_name("=x"), Err(ParseError));
    assert_eq!(parse_attribute_name(" x"), Err(ParseError));
    assert_eq!(parse_attribute("/>"), Err(ParseError));
}

#[test]
fn attribute_value_forms() {
    assert_eq!(parse_attribute("a=\"x y\" b"), Ok((" b", ("a", Some("x y")))));
    assert_eq!(parse_attribute("a='x \"y\"'>"), Ok((">", ("a", Some("x \"y\"")))));
    assert_eq!(parse_attribute("a=xy z"), Ok((" z", ("a", Some("xy")))));
    assert_eq!(parse_attribute("a = \t\"x\""), Ok(("", ("a", Some("x")))));
    assert_eq!(parse_attribute("a=\"\""), Ok(("", ("a", Some("")))));
    assert_eq!(parse_attribute("a=x`y"), Ok(("`y", ("a", Some("x")))));
    assert_eq!(parse_attribute("a=x<y"), Ok(("<y", ("a", Some("x")))));
    assert_eq!(parse_attribute("a=b=c>"), Ok((">", ("a", Some("b=c")))));
}

#[test]
fn attribute_without_a_usable_value_has_none() {
    assert_eq!(parse_attribute("a=\"open"), Ok(("=\"open", ("a", None))));
    assert_eq!(parse_attribute("a='open\""), Ok(("='open\"", ("a", None))));
    assert_eq!(parse_attribute("a ="), Ok((" =", ("a", None))));
    assert_eq!(parse_attribute("a = >"), Ok((" = >", ("a", None))));
    assert_eq!(parse_attribute("a b"), Ok((" b", ("a", None))));
}

#[test]
fn tag_name_may_be_empty() {
    assert_eq!(parse_tag_name(""), Ok(("", "")));
    assert_eq!(parse_tag_name("/x"), Ok(("/x", "")));
    assert_eq!(parse_tag_name("a\u{a0}b c"), Ok((" c", "a\u{a0}b")));
    assert_eq!(parse_tag_name("a\x0cb"), Ok(("\x0cb", "a")));
    assert_eq!(parse_tag_name("a\x0bb\r"), Ok(("\r", "a\x0bb")));
}

#[test]
fn end_tag_allows_whitespace_around_the_name() {
    assert_eq!(Element::parse_end_tag("</div>x"), Ok(("x", "div")));
    assert_eq!(Element::parse_end_tag("</div \n\t>"), Ok(("", "div")));
    assert_eq!(Element::parse_end_tag("</ div>"), Ok(("", "div")));
    assert_eq!(Element::parse_end_tag("</\t\ndiv\r >"), Ok(("", "div")));
    assert_eq!(Element::parse_end_tag("</>"), Ok(("", "")));
    assert_eq!(Element::parse_end_tag("</ >"), Ok(("", "")));
    assert_eq!(Element::parse_end_tag("< /div>"), Err(ParseError));
    assert_eq!(Element::parse_end_tag("</di v>"), Err(ParseError));
    assert_eq!(Element::parse_end_tag("</\u{a0}div>"), Ok(("", "\u{a0}div")));
    assert_eq!(Element::parse_end_tag("</div/>"), Err(ParseError));
    assert_eq!(Element::parse_end_tag("<div>"), Err(ParseError));
    assert_eq!(Element::parse_end_tag("</div"), Err(ParseError));
    assert_eq!(Element::parse_end_tag(""), Err(ParseError));
}

#[test]
fn void_names_ignore_case() {
    assert!(is_void_name("br"));
    assert!(is_void_name("BR"));
    assert!(is_void_name("Img"));
    assert!(is_void_name("wbr"));
    assert!(is_void_name("sOuRcE"));
    assert!(!is_void_name("b"));
    assert!(!is_void_name("brr"));
    assert!(!is_void_name("div"));
    assert!(!is_void_name(""));
    assert!(!is_void_name("\u{212a}"));
    for name in [
        "area", "base", "br", "col", "embed", "hr", "img", "input", "link", "meta", "param",
        "source", "track", "wbr",
    ] {
        assert!(is_void_name(name));
    }
}

#[test]
fn void_name_needs_no_end_tag_and_no_slash() {
    let plain = Element::parse("<BR class=x>after");
    let slashed = Element::parse("<BR class=x />after");
    let expected = Element::Void {
        name: "BR",
        attributes: vec![("class", Some("x"))],
    };
    assert_eq!(plain, Ok(("after", expected)));
    assert_eq!(
        slashed,
        Ok((
            "after",
            Element::Void {
                name: "BR",
                attributes: vec![("class", Some("x"))],
            }
        ))
    );
}

#[test]
fn end_tag_name_must_match_exactly() {
    assert_eq!(Element::parse("<Foo>x</foo>"), Err(ParseError));
    assert_eq!(Element::parse("<Foo>x</Fo>"), Err(ParseError));
    assert_eq!(Element::parse("<Foo>x"), Err(ParseError));
    assert_eq!(
        Element::parse("<Foo>x</Foo>"),
        Ok((
            "",
            Element::Normal {
                name: "Foo",
                attributes: vec![],
                content: vec![Node::Text("x")],
            }
        ))
    );
}

#[test]
fn attributes_keep_order_and_duplicates() {
    assert_eq!(
        Element::parse("<a x=1 y x=2\n\tx>"),
        Err(ParseError)
    );
    assert_eq!(
        Element::parse("<a x=1 y x=2\n\tx></a>"),
        Ok((
            "",
            Element::Normal {
                name: "a",
                attributes: vec![("x", Some("1")), ("y", None), ("x", Some("2")), ("x", None)],
                content: vec![],
            }
        ))
    );
}

#[test]
fn element_nests() {
    assert_eq!(
        Element::parse("<ul> <li>one</li>\n<li><br>two</li> </ul> tail"),
        Ok((
            " tail",
            Element::Normal {
                name: "ul",
                attributes: vec![],
                content: vec![
                    Node::Element(Element::Normal {
                        name: "li",
                        attributes: vec![],
                        content: vec![Node::Text("one")],
                    }),
                    Node::Element(Element::Normal {
                        name: "li",
                        attributes: vec![],
                        content: vec![
                            Node::Element(Element::Void {
                                name: "br",
                                attributes: vec![],
                            }),
                            Node::Text("two"),
                        ],
                    }),
                ],
            }
        ))
    );
}

#[test]
fn element_rejects_what_is_no_start_tag() {
    assert_eq!(Element::parse("div>"), Err(ParseError));
    assert_eq!(Element::parse("<div"), Err(ParseError));
    assert_eq!(Element::parse("</div>"), Err(ParseError));
    assert_eq!(Element::parse("<div / >"), Err(ParseError));
    assert_eq!(Element::parse("<div a=\"1\"b>"), Err(ParseError));
    assert_eq!(Element::parse(""), Err(ParseError));
}

#[test]
fn element_name_may_be_empty() {
    assert_eq!(
        Element::parse("< a/>"),
        Ok((
            "",
            Element::Void {
                name: "",
                attributes: vec![("a", None)],
            }
        ))
    );
    assert_eq!(
        Element::parse("<>x</>"),
        Ok((
            "",
            Element::Normal {
                name: "",
                attributes: vec![],
                content: vec![Node::Text("x")],
            }
        ))
    );
}
