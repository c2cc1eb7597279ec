//! The layout of each kind of node, and the formatter built on it.

use crate::ast::comment::Comment;
use crate::ast::doctype::Doctype;
use crate::ast::element::{attribute_view, attributes_view, AttributeView, Element, ElementView};
use crate::ast::{lemma_nodes_view, nodes, nodes_view, Node, NodeView};
use crate::configuration::Configuration;
use crate::layout::{docs_view, push, rendered, Doc, Layout, RenderError};
use crate::text::{lines, slices_view, split_lines, split_words, words};
use vstd::pervasive::unreached;
use vstd::prelude::*;

verus! {

/// A doctype is written in one fixed form, or the other.
pub open spec fn doctype_layout(doctype: Doctype) -> Layout {
    if doctype.legacy {
        Layout::Text("<!DOCTYPE html SYSTEM \"about:legacy-compat\">"@)
    } else {
        Layout::Text("<!DOCTYPE html>"@)
    }
}

/// Each line of a comment, after a line break.
pub open spec fn rows_layout(rows: Seq<Seq<char>>) -> Seq<Layout>
    decreases rows.len(),
{
    if rows.len() == 0 {
        Seq::empty()
    } else {
        rows_layout(rows.drop_last()) + seq![Layout::Line, Layout::Text(rows.last())]
    }
}

/// A comment without a body is `<!---->`. A body of one line is indented
/// and may stand on the line of the delimiters. A body of several lines
/// keeps its lines as they are, and the closing delimiter gets a line of its
/// own.
pub open spec fn comment_layout(body: Seq<char>, indent: int) -> Layout {
    if body.len() == 0 {
        Layout::Text("<!---->"@)
    } else {
        let rows = Layout::Concat(rows_layout(lines(body)));
        if lines(body).len() < 2 {
            Layout::Group(
                Box::new(
                    Layout::Concat(
                        seq![
                            Layout::Text("<!--"@),
                            Layout::Nest(indent, Box::new(rows)),
                            Layout::Line,
                            Layout::Text("-->"@),
                        ],
                    ),
                ),
            )
        } else {
            Layout::Group(
                Box::new(
                    Layout::Concat(
                        seq![Layout::Text("<!--"@), rows, Layout::Hardline, Layout::Text("-->"@)],
                    ),
                ),
            )
        }
    }
}

/// A line break that becomes a space wherever the next word still fits.
pub open spec fn soft_line() -> Layout {
    Layout::Group(Box::new(Layout::Line))
}

/// Words with a [`soft_line`] between each two of them.
pub open spec fn words_layout(words: Seq<Seq<char>>) -> Seq<Layout>
    decreases words.len(),
{
    if words.len() == 0 {
        Seq::empty()
    } else if words.len() == 1 {
        seq![Layout::Text(words[0])]
    } else {
        words_layout(words.drop_last()) + seq![soft_line(), Layout::Text(words.last())]
    }
}

/// Text is reflowed: its words, each on the line of the one before it
/// wherever it fits.
pub open spec fn text_layout(text: Seq<char>) -> Layout {
    if text.len() == 0 {
        Layout::Nil
    } else {
        Layout::Concat(words_layout(words(text)))
    }
}

/// An attribute after a line break: its name and, where it has a value, `=`
/// and the value in double quotes.
pub open spec fn attribute_layout(attribute: AttributeView) -> Seq<Layout> {
    match attribute.1 {
        Some(value) => seq![
            Layout::Line,
            Layout::Text(attribute.0),
            Layout::Text("="@),
            Layout::Text("\""@),
            Layout::Text(value),
            Layout::Text("\""@),
        ],
        None => seq![Layout::Line, Layout::Text(attribute.0)],
    }
}

/// The attributes, one after the other.
pub open spec fn attributes_layout(attributes: Seq<AttributeView>) -> Seq<Layout>
    decreases attributes.len(),
{
    if attributes.len() == 0 {
        Seq::empty()
    } else {
        attributes_layout(attributes.drop_last()) + attribute_layout(attributes.last())
    }
}

/// `parts` indented, then a line break that leaves nothing when flat, as
/// one group: on one line if that fits, otherwise each part that starts with
/// a line break on a line of its own, and what follows the block on the next
/// line.
pub open spec fn block(parts: Seq<Layout>, indent: int) -> Layout {
    Layout::Group(
        Box::new(
            Layout::Concat(
                seq![Layout::Nest(indent, Box::new(Layout::Concat(parts))), Layout::Line0],
            ),
        ),
    )
}

/// The attribute list of a tag; nothing where the tag has no attribute.
pub open spec fn attribute_block(attributes: Seq<AttributeView>, indent: int) -> Layout {
    if attributes.len() == 0 {
        Layout::Nil
    } else {
        block(attributes_layout(attributes), indent)
    }
}

/// Whether the content is laid out one node per line whatever the width:
/// there is content, and none of it is text.
pub open spec fn forced_multiline(content: Seq<NodeView>) -> bool {
    content.len() > 0 && forall|i: int| 0 <= i < content.len() ==> !(#[trigger] content[i] is Text)
}

/// The line break in front of each node of the content.
pub open spec fn separator(content: Seq<NodeView>) -> Layout {
    if forced_multiline(content) {
        Layout::Hardline
    } else {
        Layout::Line0
    }
}

/// The layout of a node.
pub open spec fn node_layout(node: NodeView, indent: int) -> Layout
    decreases node, 0nat,
{
    match node {
        NodeView::Comment(body) => comment_layout(body, indent),
        NodeView::Doctype(doctype) => doctype_layout(doctype),
        NodeView::Element(element) => element_layout(element, indent),
        NodeView::Text(text) => text_layout(text),
    }
}

/// Each node of the content, after `separator`.
pub open spec fn children_layout(content: Seq<NodeView>, indent: int, separator: Layout) -> Seq<
    Layout,
>
    decreases content, 0nat,
{
    if content.len() == 0 {
        Seq::empty()
    } else {
        children_layout(content.drop_last(), indent, separator) + seq![
            separator,
            node_layout(content.last(), indent),
        ]
    }
}

/// The content of an element as a block; nothing where there is no content.
pub open spec fn content_block(content: Seq<NodeView>, indent: int) -> Layout
    decreases content, 1nat,
{
    if content.len() == 0 {
        Layout::Nil
    } else {
        block(children_layout(content, indent, separator(content)), indent)
    }
}

/// The layout of an element: `<`, the name, the attributes, and `/>` for a
/// void element; for any other `>`, the content and the end tag, all in one
/// group.
pub open spec fn element_layout(element: ElementView, indent: int) -> Layout
    decreases element, 0nat,
{
    match element {
        ElementView::Void { name, attributes } => Layout::Concat(
            seq![
                Layout::Text("<"@),
                Layout::Text(name),
                attribute_block(attributes, indent),
                Layout::Text("/>"@),
            ],
        ),
        ElementView::Normal { name, attributes, content } => Layout::Group(
            Box::new(
                Layout::Concat(
                    seq![
                        Layout::Text("<"@),
                        Layout::Text(name),
                        attribute_block(attributes, indent),
                        Layout::Text(">"@),
                        content_block(content, indent),
                        Layout::Text("</"@),
                        Layout::Text(name),
                        Layout::Text(">"@),
                    ],
                ),
            ),
        ),
    }
}

/// Each top-level node, followed by a line break.
pub open spec fn top_level_layout(nodes: Seq<NodeView>, indent: int) -> Seq<Layout>
    decreases nodes.len(),
{
    if nodes.len() == 0 {
        Seq::empty()
    } else {
        top_level_layout(nodes.drop_last(), indent) + seq![
            node_layout(nodes.last(), indent),
            Layout::Line0,
        ]
    }
}

/// The layout of a whole document.
pub open spec fn document_layout(nodes: Seq<NodeView>, indent: int) -> Layout {
    Layout::Concat(top_level_layout(nodes, indent))
}

/// The canonical form of `input`: its nodes, laid out and rendered at the
/// configured width. `None` where the renderer fails.
pub open spec fn formatted(input: Seq<char>, config: Configuration) -> Option<Seq<char>> {
    rendered(
        document_layout(nodes(input).1, config.indent_width as int),
        config.line_width as nat,
    )
}

/// Lays out a doctype.
pub fn pretty_doctype<'a>(doctype: &Doctype) -> (doc: Doc<'a>)
    ensures
        doc@ == doctype_layout(*doctype),
{
    if doctype.legacy {
        Doc::text("<!DOCTYPE html SYSTEM \"about:legacy-compat\">")
    } else {
        Doc::text("<!DOCTYPE html>")
    }
}

/// Lays out a comment.
pub fn pretty_comment<'a>(comment: &Comment<'a>, config: &Configuration) -> (doc: Doc<'a>)
    ensures
        doc@ == comment_layout(comment@, config.indent_width as int),
{
    let body: &'a str = comment.0;
    if body.is_empty() {
        return Doc::text("<!---->");
    }
    let rows = split_lines(body);
    let mut parts: Vec<Doc<'a>> = Vec::new();
    let mut i: usize = 0;
    while i < rows.len()
        invariant
            i <= rows.len(),
            docs_view(parts@) == rows_layout(slices_view(rows@).take(i as int)),
        decreases rows.len() - i,
    {
        proof {
            let before = slices_view(rows@).take(i as int);
            let after = slices_view(rows@).take(i + 1);
            assert(after.drop_last() == before);
            assert(after.last() == rows@[i as int]@);
            assert(rows_layout(before).push(Layout::Line).push(Layout::Text(rows@[i as int]@))
                == rows_layout(before) + seq![Layout::Line, Layout::Text(rows@[i as int]@)]);
        }
        push(&mut parts, Doc::Line);
        push(&mut parts, Doc::text(rows[i]));
        i += 1;
    }
    assert(slices_view(rows@).take(i as int) == slices_view(rows@));
    let mut whole: Vec<Doc<'a>> = Vec::new();
    push(&mut whole, Doc::text("<!--"));
    if rows.len() < 2 {
        push(&mut whole, Doc::nest(config.indent_width as isize, Doc::concat(parts)));
        push(&mut whole, Doc::Line);
    } else {
        push(&mut whole, Doc::concat(parts));
        push(&mut whole, Doc::Hardline);
    }
    push(&mut whole, Doc::text("-->"));
    let doc = Doc::group(Doc::concat(whole));
    assert(doc@ == comment_layout(comment@, config.indent_width as int)) by {
        let rows_doc = Layout::Concat(rows_layout(lines(body@)));
        let indent = config.indent_width as int;
        if lines(body@).len() < 2 {
            assert(docs_view(whole@) == seq![
                Layout::Text("<!--"@),
                Layout::Nest(indent, Box::new(rows_doc)),
                Layout::Line,
                Layout::Text("-->"@),
            ]);
        } else {
            assert(docs_view(whole@) == seq![
                Layout::Text("<!--"@),
                rows_doc,
                Layout::Hardline,
                Layout::Text("-->"@),
            ]);
        }
    }
    doc
}

/// Lays out a text run.
pub fn pretty_text<'a>(text: &'a str) -> (doc: Doc<'a>)
    ensures
        doc@ == text_layout(text@),
{
    if text.is_empty() {
        return Doc::Nil;
    }
    let found = split_words(text);
    let mut parts: Vec<Doc<'a>> = Vec::new();
    let mut i: usize = 0;
    while i < found.len()
        invariant
            i <= found.len(),
            docs_view(parts@) == words_layout(slices_view(found@).take(i as int)),
        decreases found.len() - i,
    {
        proof {
            let before = slices_view(found@).take(i as int);
            let after = slices_view(found@).take(i + 1);
            assert(after.drop_last() == before);
            assert(after.last() == found@[i as int]@);
            assert(after[0] == found@[0]@);
            assert(words_layout(before).push(soft_line()).push(Layout::Text(found@[i as int]@))
                == words_layout(before) + seq![soft_line(), Layout::Text(found@[i as int]@)]);
        }
        if i > 0 {
            push(&mut parts, Doc::group(Doc::Line));
        }
        push(&mut parts, Doc::text(found[i]));
        i += 1;
    }
    assert(slices_view(found@).take(i as int) == slices_view(found@));
    Doc::concat(parts)
}

/// `parts` as a block: see [`block`].
fn pretty_block<'a>(parts: Vec<Doc<'a>>, config: &Configuration) -> (doc: Doc<'a>)
    ensures
        doc@ == block(docs_view(parts@), config.indent_width as int),
{
    let ghost inner = docs_view(parts@);
    let mut whole: Vec<Doc<'a>> = Vec::new();
    push(&mut whole, Doc::nest(config.indent_width as isize, Doc::concat(parts)));
    push(&mut whole, Doc::Line0);
    assert(docs_view(whole@) == seq![
        Layout::Nest(config.indent_width as int, Box::new(Layout::Concat(inner))),
        Layout::Line0,
    ]);
    Doc::group(Doc::concat(whole))
}

/// Lays out the attribute list of a tag.
fn pretty_attributes<'a>(
    attributes: &Vec<(&'a str, Option<&'a str>)>,
    config: &Configuration,
) -> (doc: Doc<'a>)
    ensures
        doc@ == attribute_block(attributes_view(attributes@), config.indent_width as int),
{
    if attributes.len() == 0 {
        return Doc::Nil;
    }
    let mut parts: Vec<Doc<'a>> = Vec::new();
    let mut i: usize = 0;
    while i < attributes.len()
        invariant
            i <= attributes.len(),
            docs_view(parts@) == attributes_layout(attributes_view(attributes@).take(i as int)),
        decreases attributes.len() - i,
    {
        let (name, value) = attributes[i];
        let ghost before = attributes_layout(attributes_view(attributes@).take(i as int));
        proof {
            let taken = attributes_view(attributes@).take(i + 1);
            assert(taken.drop_last() == attributes_view(attributes@).take(i as int));
            assert(taken.last() == attribute_view(attributes@[i as int]));
        }
        push(&mut parts, Doc::Line);
        push(&mut parts, Doc::text(name));
        match value {
            Some(value) => {
                push(&mut parts, Doc::text("="));
                push(&mut parts, Doc::text("\""));
                push(&mut parts, Doc::text(value));
                push(&mut parts, Doc::text("\""));
                assert(docs_view(parts@) == before + attribute_layout((name@, Some(value@))));
            },
            None => {
                assert(docs_view(parts@) == before + attribute_layout((name@, None)));
            },
        }
        i += 1;
    }
    assert(attributes_view(attributes@).take(i as int) == attributes_view(attributes@));
    pretty_block(parts, config)
}

/// Whether there is content and none of it is text.
fn is_forced_multiline(content: &Vec<Node>) -> (forced: bool)
    ensures
        forced == forced_multiline(nodes_view(content@)),
{
    proof {
        lemma_nodes_view(content@);
    }
    if content.len() == 0 {
        return false;
    }
    let mut i: usize = 0;
    while i < content.len()
        invariant
            i <= content.len(),
            nodes_view(content@).len() == content.len(),
            forall|j: int|
                0 <= j < content.len() ==> (#[trigger] nodes_view(content@)[j]) == content@[j]@,
            forall|j: int| 0 <= j < i ==> !(#[trigger] nodes_view(content@)[j] is Text),
        decreases content.len() - i,
    {
        match &content[i] {
            Node::Text(_) => {
                assert(nodes_view(content@)[i as int] is Text);
                return false;
            },
            _ => {},
        }
        i += 1;
    }
    true
}

/// Lays out an element with all that it holds.
pub fn pretty_element<'a>(element: &Element<'a>, config: &Configuration) -> (doc: Doc<'a>)
    ensures
        doc@ == element_layout(element@, config.indent_width as int),
    decreases element,
{
    let ghost indent = config.indent_width as int;
    match element {
        Element::Void { name, attributes } => {
            let mut whole: Vec<Doc<'a>> = Vec::new();
            push(&mut whole, Doc::text("<"));
            push(&mut whole, Doc::text(*name));
            push(&mut whole, pretty_attributes(attributes, config));
            push(&mut whole, Doc::text("/>"));
            assert(docs_view(whole@) == seq![
                Layout::Text("<"@),
                Layout::Text(name@),
                attribute_block(attributes_view(attributes@), indent),
                Layout::Text("/>"@),
            ]);
            Doc::concat(whole)
        },
        Element::Normal { name, attributes, content } => {
            let forced = is_forced_multiline(content);
            let ghost children = nodes_view(content@);
            let mut parts: Vec<Doc<'a>> = Vec::new();
            let mut i: usize = 0;
            proof {
                lemma_nodes_view(content@);
            }
            while i < content.len()
                invariant
                    i <= content.len(),
                    children == nodes_view(content@),
                    children.len() == content.len(),
                    forall|j: int| 0 <= j < content.len() ==> (#[trigger] children[j]) == content@[j]@,
                    forced == forced_multiline(children),
                    indent == config.indent_width as int,
                    *element is Normal,
                    element->content == *content,
                    docs_view(parts@) == children_layout(
                        children.take(i as int),
                        indent,
                        separator(children),
                    ),
                decreases content.len() - i,
            {
                let ghost before = children_layout(children.take(i as int), indent, separator(children));
                proof {
                    let taken = children.take(i + 1);
                    assert(taken.drop_last() == children.take(i as int));
                    assert(taken.last() == content@[i as int]@);
                    assert(decreases_to!(*element => element->content));
                    assert(decreases_to!(*content => content[i as int]));
                }
                if forced {
                    push(&mut parts, Doc::Hardline);
                } else {
                    push(&mut parts, Doc::Line0);
                }
                push(&mut parts, pretty_node(&content[i], config));
                assert(docs_view(parts@) == before + seq![
                    separator(children),
                    node_layout(content@[i as int]@, indent),
                ]);
                i += 1;
            }
            assert(children.take(i as int) == children);
            let body = if content.len() == 0 {
                Doc::Nil
            } else {
                pretty_block(parts, config)
            };
            let mut whole: Vec<Doc<'a>> = Vec::new();
            push(&mut whole, Doc::text("<"));
            push(&mut whole, Doc::text(*name));
            push(&mut whole, pretty_attributes(attributes, config));
            push(&mut whole, Doc::text(">"));
            push(&mut whole, body);
            push(&mut whole, Doc::text("</"));
            push(&mut whole, Doc::text(*name));
            push(&mut whole, Doc::text(">"));
            assert(docs_view(whole@) == seq![
                Layout::Text("<"@),
                Layout::Text(name@),
                attribute_block(attributes_view(attributes@), indent),
                Layout::Text(">"@),
                content_block(children, indent),
                Layout::Text("</"@),
                Layout::Text(name@),
                Layout::Text(">"@),
            ]);
            Doc::group(Doc::concat(whole))
        },
    }
}

/// Lays out a node.
pub fn pretty_node<'a>(node: &Node<'a>, config: &Configuration) -> (doc: Doc<'a>)
    ensures
        doc@ == node_layout(node@, config.indent_width as int),
    decreases node,
{
    match node {
        Node::Comment(comment) => pretty_comment(comment, config),
        Node::Doctype(doctype) => pretty_doctype(doctype),
        Node::Element(element) => pretty_element(element, config),
        Node::Text(text) => pretty_text(*text),
    }
}

/// Lays out a whole document: each top-level node, followed by a line break.
pub fn pretty_document<'a>(nodes: &Vec<Node<'a>>, config: &Configuration) -> (doc: Doc<'a>)
    ensures
        doc@ == document_layout(nodes_view(nodes@), config.indent_width as int),
{
    let ghost views = nodes_view(nodes@);
    let ghost indent = config.indent_width as int;
    let mut parts: Vec<Doc<'a>> = Vec::new();
    let mut i: usize = 0;
    proof {
        lemma_nodes_view(nodes@);
    }
    while i < nodes.len()
        invariant
            i <= nodes.len(),
            views == nodes_view(nodes@),
            views.len() == nodes.len(),
            forall|j: int| 0 <= j < nodes.len() ==> (#[trigger] views[j]) == nodes@[j]@,
            indent == config.indent_width as int,
            docs_view(parts@) == top_level_layout(views.take(i as int), indent),
        decreases nodes.len() - i,
    {
        let ghost before = top_level_layout(views.take(i as int), indent);
        proof {
            let taken = views.take(i + 1);
            assert(taken.drop_last() == views.take(i as int));
            assert(taken.last() == nodes@[i as int]@);
        }
        push(&mut parts, pretty_node(&nodes[i], config));
        push(&mut parts, Doc::Line0);
        assert(docs_view(parts@) == before + seq![
            node_layout(nodes@[i as int]@, indent),
            Layout::Line0,
        ]);
        i += 1;
    }
    assert(views.take(i as int) == views);
    Doc::concat(parts)
}

/// Prettifies `input`: parses it, lays each node out and renders the whole
/// at the configured line width, with the configured indentation.
///
/// Parsing never fails: what is no markup is text. Where an end tag stands
/// at the top level, the input from there on is left out.
pub fn format(input: &str, config: &Configuration) -> (out: Result<String, RenderError>)
    ensures
        match out {
            Ok(text) => formatted(input@, *config) == Some(text@),
            Err(_) => formatted(input@, *config) is None,
        },
{
    let nodes = match Node::parse_many(input) {
        Ok((_, nodes)) => nodes,
        Err(_) => unreached(),
    };
    let doc = pretty_document(&nodes, config);
    doc.render(config.line_width as usize)
}

} // verus!
