use markup_reflow::ast::comment::Comment;
use markup_reflow::ast::doctype::Doctype;
use markup_reflow::ast::element::Element;
use markup_reflow::ast::Node;
use markup_reflow::configuration::Configuration;
use markup_reflow::format::{
    pretty_comment, pretty_doctype, pretty_document, pretty_element, pretty_node, pretty_text,
};
use markup_reflow::layout::Doc;

fn at(width: u32, input: &str) -> String {
    let config = Configuration { line_width: width, indent_width: 2 };
    markup_reflow::format::format(input, &config).unwrap()
}

fn settings() -> Configuration {
    Configuration { line_width: 80, indent_width: 2 }
}

#[test]
fn default_configuration() {
    let config = Configuration::default();
    assert_eq!(config.line_width, 80);
    assert_eq!(config.indent_width, 2);
}

#[test]
fn empty_input_gives_empty_output() {
    assert_eq!(at(80, ""), "");
    assert_eq!(at(80, " \n\t "), "");
}

#[test]
fn doctype_round_trip() {
    assert_eq!(at(80, "<!DOCTYPE html>\n"), "<!DOCTYPE html>\n");
    assert_eq!(at(80, "<!DOCTYPE html>"), "<!DOCTYPE html>\n");
    assert_eq!(at(80, "<!doctype HTML>"), "<!DOCTYPE html>\n");
}

#[test]
fn legacy_doctype_gets_double_quotes() {
    assert_eq!(
        at(80, "<!DOCTYPE html SYSTEM 'about:legacy-compat'>"),
        "<!DOCTYPE html SYSTEM \"about:legacy-compat\">\n"
    );
    assert_eq!(
        at(80, "<!DOCTYPE html SYSTEM \"about:legacy-compat\">\n"),
        "<!DOCTYPE html SYSTEM \"about:legacy-compat\">\n"
    );
}

#[test]
fn doctype_layout_is_one_text() {
    assert_eq!(
        pretty_doctype(&Doctype { legacy: false }),
        Doc::Text("<!DOCTYPE html>")
    );
    assert_eq!(
        pretty_doctype(&Doctype { legacy: true }),
        Doc::Text("<!DOCTYPE html SYSTEM \"about:legacy-compat\">")
    );
}

#[test]
fn void_element_renders_without_content() {
    assert_eq!(at(80, "<input>"), "<input/>\n");
    assert_eq!(at(80, "<input/>"), "<input/>\n");
    assert_eq!(at(80, "<INPUT />"), "<INPUT/>\n");
    assert_eq!(at(80, "<MyComponent/>"), "<MyComponent/>\n");
    assert_eq!(at(80, "<br>text"), "<br/>\ntext\n");
}

#[test]
fn attributes_stay_in_order() {
    assert_eq!(
        at(80, "<input type=\"text\" required>"),
        "<input type=\"text\" required/>\n"
    );
    assert_eq!(
        at(80, "<a b='1' a=2 b c b=\"3\"></a>"),
        "<a b=\"1\" a=\"2\" b c b=\"3\"></a>\n"
    );
}

#[test]
fn attribute_layout_follows_the_list() {
    let element = Element::Void {
        name: "input",
        attributes: vec![("type", Some("text")), ("required", None)],
    };
    assert_eq!(
        pretty_element(&element, &settings()),
        Doc::Concat(vec![
            Doc::Text("<"),
            Doc::Text("input"),
            Doc::Group(Box::new(Doc::Concat(vec![
                Doc::Nest(
                    2,
                    Box::new(Doc::Concat(vec![
                        Doc::Line,
                        Doc::Text("type"),
                        Doc::Text("="),
                        Doc::Text("\""),
                        Doc::Text("text"),
                        Doc::Text("\""),
                        Doc::Line,
                        Doc::Text("required"),
                    ]))
                ),
                Doc::Line0,
            ]))),
            Doc::Text("/>"),
        ])
    );
}

#[test]
fn attributes_wrap_at_the_width() {
    assert_eq!(
        at(20, "<input type=\"text\" required>"),
        "<input\n  type=\"text\"\n  required\n/>\n"
    );
    assert_eq!(at(20, "<input a=\"1\" b=\"2\">"), "<input a=\"1\" b=\"2\"/>\n");
    assert_eq!(
        at(20, "<div class=\"a\" id=\"b\">x</div>"),
        "<div\n  class=\"a\"\n  id=\"b\"\n>x</div>\n"
    );
    assert_eq!(at(20, "<div id=\"b\">x</div>"), "<div id=\"b\">x</div>\n");
    assert_eq!(
        at(20, "<p><input type=\"text\" required></p>"),
        "<p>\n  <input\n    type=\"text\"\n    required\n  />\n</p>\n"
    );
}

#[test]
fn indentation_follows_the_configuration() {
    let config = Configuration { line_width: 20, indent_width: 4 };
    assert_eq!(
        markup_reflow::format::format("<div><input type=\"text\" required></div>", &config),
        Ok("<div>\n    <input\n        type=\"text\"\n        required\n    />\n</div>\n".to_string())
    );
    let flat = Configuration { line_width: 20, indent_width: 0 };
    assert_eq!(
        markup_reflow::format::format("<div><p>a</p></div>", &flat),
        Ok("<div>\n<p>a</p>\n</div>\n".to_string())
    );
}

#[test]
fn elements_only_content_is_always_multiline() {
    assert_eq!(
        at(80, "<div><p>a</p><p>b</p></div>"),
        "<div>\n  <p>a</p>\n  <p>b</p>\n</div>\n"
    );
    assert_eq!(at(80, "<ul><li></li></ul>"), "<ul>\n  <li></li>\n</ul>\n");
    assert_eq!(
        at(80, "<div><!-- c --><br></div>"),
        "<div>\n  <!-- c -->\n  <br/>\n</div>\n"
    );
}

#[test]
fn content_with_text_stays_on_the_line_where_it_fits() {
    assert_eq!(at(80, "<p>some text</p>"), "<p>some text</p>\n");
    assert_eq!(at(80, "<p>\n  some\n  text\n</p>"), "<p>some text</p>\n");
    assert_eq!(at(80, "<p>a<b>c</b></p>"), "<p>a<b>c</b></p>\n");
    assert_eq!(at(80, "<p></p>"), "<p></p>\n");
}

#[test]
fn text_is_reflowed_at_the_width() {
    assert_eq!(
        at(20, "<p>some words that are long enough to wrap around</p>"),
        "<p>\n  some words that\n  are long enough to\n  wrap around\n</p>\n"
    );
    assert_eq!(
        at(20, "some words that are long enough to wrap around"),
        "some words that are\nlong enough to wrap\naround\n"
    );
    assert_eq!(at(80, "a  b\n   c"), "a b c\n");
    assert_eq!(at(3, "aaaa bbbb"), "aaaa\nbbbb\n");
}

#[test]
fn text_layout_puts_soft_lines_between_words() {
    assert_eq!(pretty_text(""), Doc::Nil);
    assert_eq!(pretty_text("one"), Doc::Concat(vec![Doc::Text("one")]));
    assert_eq!(
        pretty_text("one  two\nthree"),
        Doc::Concat(vec![
            Doc::Text("one"),
            Doc::Group(Box::new(Doc::Line)),
            Doc::Text("two"),
            Doc::Group(Box::new(Doc::Line)),
            Doc::Text("three"),
        ])
    );
}

#[test]
fn comment_on_one_line() {
    assert_eq!(at(80, "<!-- My comment -->"), "<!-- My comment -->\n");
    assert_eq!(at(80, "<!--My comment-->"), "<!-- My comment -->\n");
    assert_eq!(at(80, "<!--\n    My comment\n-->"), "<!-- My comment -->\n");
    assert_eq!(at(80, "<!---->"), "<!---->\n");
    assert_eq!(at(80, "<!--  -->"), "<!---->\n");
}

#[test]
fn comment_that_does_not_fit_is_broken() {
    assert_eq!(
        at(20, "<!-- a very long comment that will not fit -->"),
        "<!--\n  a very long comment that will not fit\n-->\n"
    );
}

#[test]
fn comment_of_several_lines_keeps_them() {
    assert_eq!(
        at(80, "<!--\n  My\n  multiline\n  comment\n-->"),
        "<!--\n  My\n  multiline\n  comment\n-->\n"
    );
    assert_eq!(
        at(80, "<!--\n a\n\t  b \n-->\n"),
        "<!--\n a\n\t  b \n-->\n"
    );
    assert_eq!(
        at(80, "<div><!--\n  a\n  b\n--></div>"),
        "<div>\n  <!--\n    a\n    b\n  -->\n</div>\n"
    );
}

#[test]
fn comment_layouts() {
    assert_eq!(pretty_comment(&Comment(""), &settings()), Doc::Text("<!---->"));
    assert_eq!(
        pretty_comment(&Comment("one"), &settings()),
        Doc::Group(Box::new(Doc::Concat(vec![
            Doc::Text("<!--"),
            Doc::Nest(2, Box::new(Doc::Concat(vec![Doc::Line, Doc::Text("one")]))),
            Doc::Line,
            Doc::Text("-->"),
        ])))
    );
    assert_eq!(
        pretty_comment(&Comment(" a\n b"), &settings()),
        Doc::Group(Box::new(Doc::Concat(vec![
            Doc::Text("<!--"),
            Doc::Concat(vec![Doc::Line, Doc::Text(" a"), Doc::Line, Doc::Text(" b")]),
            Doc::Hardline,
            Doc::Text("-->"),
        ])))
    );
}

#[test]
fn element_layouts() {
    let element = Element::Normal {
        name: "p",
        attributes: vec![],
        content: vec![Node::Text("a"), Node::Element(Element::Void { name: "br", attributes: vec![] })],
    };
    let br = Doc::Concat(vec![Doc::Text("<"), Doc::Text("br"), Doc::Nil, Doc::Text("/>")]);
    assert_eq!(
        pretty_element(&element, &settings()),
        Doc::Group(Box::new(Doc::Concat(vec![
            Doc::Text("<"),
            Doc::Text("p"),
            Doc::Nil,
            Doc::Text(">"),
            Doc::Group(Box::new(Doc::Concat(vec![
                Doc::Nest(
                    2,
                    Box::new(Doc::Concat(vec![
                        Doc::Line0,
                        Doc::Concat(vec![Doc::Text("a")]),
                        Doc::Line0,
                        br,
                    ]))
                ),
                Doc::Line0,
            ]))),
            Doc::Text("</"),
            Doc::Text("p"),
            Doc::Text(">"),
        ])))
    );
    let only_elements = Element::Normal {
        name: "p",
        attributes: vec![],
        content: vec![Node::Comment(Comment(""))],
    };
    assert_eq!(
        pretty_element(&only_elements, &settings()),
        Doc::Group(Box::new(Doc::Concat(vec![
            Doc::Text("<"),
            Doc::Text("p"),
            Doc::Nil,
            Doc::Text(">"),
            Doc::Group(Box::new(Doc::Concat(vec![
                Doc::Nest(
                    2,
                    Box::new(Doc::Concat(vec![Doc::Hardline, Doc::Text("<!---->")]))
                ),
                Doc::Line0,
            ]))),
            Doc::Text("</"),
            Doc::Text("p"),
            Doc::Text(">"),
        ])))
    );
}

#[test]
fn node_and_document_layouts() {
    assert_eq!(
        pretty_node(&Node::Doctype(Doctype { legacy: false }), &settings()),
        Doc::Text("<!DOCTYPE html>")
    );
    assert_eq!(pretty_node(&Node::Text(""), &settings()), Doc::Nil);
    assert_eq!(pretty_document(&vec![], &settings()), Doc::Concat(vec![]));
    assert_eq!(
        pretty_document(&vec![Node::Text("a"), Node::Comment(Comment(""))], &settings()),
        Doc::Concat(vec![
            Doc::Concat(vec![Doc::Text("a")]),
            Doc::Line0,
            Doc::Text("<!---->"),
            Doc::Line0,
        ])
    );
}

#[test]
fn case_of_the_end_tag_matters() {
    assert_eq!(at(80, "<Foo>x</Foo>"), "<Foo>x</Foo>\n");
    assert_eq!(at(80, "<Foo>x</foo>"), "<Foo>x\n");
}

#[test]
fn malformed_markup_becomes_text() {
    assert_eq!(at(80, "a < b"), "a < b\n");
    assert_eq!(at(80, "<p>1 < 2</p>"), "<p>1 < 2</p>\n");
    assert_eq!(at(80, "<!-- open"), "<!-- open\n");
    assert_eq!(at(80, "<p>a <b>c</p> d"), "<p>a <b>c</p>\nd\n");
    assert_eq!(at(80, "<div><Foo>x</foo></div>"), "<div><Foo>x\n");
}

#[test]
fn top_level_nodes_get_a_line_each() {
    assert_eq!(
        at(80, "<a href=x>link</a> tail <br> more"),
        "<a href=\"x\">link</a>\ntail\n<br/>\nmore\n"
    );
}

#[test]
fn what_follows_a_stray_end_tag_is_left_out() {
    assert_eq!(at(80, "<p>a</p></div><p>b</p>"), "<p>a</p>\n");
    assert_eq!(at(80, "</div>"), "");
}

#[test]
fn text_outside_ascii() {
    assert_eq!(
        at(80, "<p title=\"\u{e9}t\u{e9}\">\u{4f60}\u{597d} w\u{f6}rld</p>"),
        "<p title=\"\u{e9}t\u{e9}\">\u{4f60}\u{597d} w\u{f6}rld</p>\n"
    );
}

#[test]
fn canonical_input_is_a_fixed_point() {
    let page = "<!DOCTYPE html>\n<!--\n  several\n  lines\n-->\n<html lang=\"en\">\n  <head>\n    <meta charset=\"utf-8\"/>\n    <title>Title</title>\n  </head>\n  <body>\n    <!-- note -->\n    <p>Some text with<em>emphasis</em>in it.</p>\n    <img\n      src=\"a-rather-long-path/to/an/image.png\"\n      alt=\"An image with a long description\"\n    />\n  </body>\n</html>\n";
    assert_eq!(at(80, page), page);
    assert_eq!(at(80, &at(80, page)), at(80, page));
}

#[test]
fn formatting_a_canonical_input_again_changes_nothing() {
    for (width, input) in [
        (20u32, "<div\n  class=\"a\"\n  id=\"b\"\n>\n  <span>\n    text here\n  </span>\n</div>\n"),
        (80, "<div class=\"a\" id=\"b\">\n  <span>text here</span>\n</div>\n"),
        (80, "<ul>\n  <li>one</li>\n  <li>two<b>bold</b></li>\n</ul>\n"),
        (20, "<p>\n  some words that\n  are long enough to\n  wrap around\n</p>\n"),
        (80, "<!-- c -->\n<input type=\"text\" required/>\n<br/>\n"),
        (8, "<!--\n  a comment\n-->\nsome\ntext\n"),
        (80, ""),
    ] {
        let once = at(width, input);
        assert_eq!(once, input);
        assert_eq!(at(width, &once), once);
    }
}

#[test]
fn large_documents() {
    let mut siblings = String::from("<div>");
    let mut expected = String::from("<div>\n");
    for _ in 0..5000 {
        siblings.push_str("<p>x</p>");
        expected.push_str("  <p>x</p>\n");
    }
    siblings.push_str("</div>");
    expected.push_str("</div>\n");
    assert_eq!(at(80, &siblings), expected);

    let mut words = String::new();
    for _ in 0..20000 {
        words.push_str("word  ");
    }
    let wrapped = at(80, &words);
    assert_eq!(wrapped.lines().count(), 1250);
    assert!(wrapped.lines().all(|line| line.len() == 79));

    let mut nested = String::new();
    let mut closing = String::new();
    for _ in 0..100 {
        nested.push_str("<div>");
        closing.push_str("</div>");
    }
    nested.push_str("<br>");
    nested.push_str(&closing);
    let laid_out = at(80, &nested);
    assert_eq!(laid_out.lines().count(), 201);
    assert_eq!(at(80, &laid_out), laid_out);
}
