//! The syntax tree and its parsers.

use crate::ast::comment::{comment, lemma_comment_consumes, Comment};
use crate::ast::doctype::{doctype, lemma_doctype_consumes, Doctype};
use crate::ast::element::{
    element, end_tag, lemma_end_tag_consumes, lemma_start_tag_consumes, start_tag, void_name,
    Element, ElementView,
};
use crate::ast::element::AttributeView;
use crate::ast::util::{attribute_name_char, tag_name_char, CharClass};
use crate::text::{
    find, lemma_span, lemma_trim_start, note_length_fits, scan_while, span, split_first, trim,
    trim_end, trim_end_of, trim_start, trim_start_of,
};
use crate::ast::guarantees::{lemma_nodes_are_well_formed, lemma_non_text_is_well_formed};
use vstd::prelude::*;
use vstd::std_specs::convert::FromSpecImpl;

pub mod comment;
pub mod doctype;
pub mod element;
pub mod guarantees;
pub mod remainder;
pub mod util;

verus! {

/// The input does not match the construct that a parser was asked for.
#[derive(Debug, Clone, Copy, PartialEq, Eq, Hash)]
pub struct ParseError;

/// A syntactic unit of a document.
#[derive(Debug, PartialEq, Eq, Hash)]
pub enum Node<'a> {
    Comment(Comment<'a>),
    Doctype(Doctype),
    Element(Element<'a>),
    /// A run of character data, without surrounding whitespace. It never
    /// holds an end tag.
    Text(&'a str),
}

/// What a [`Node`] stands for.
pub enum NodeView {
    Comment(Seq<char>),
    Doctype(Doctype),
    Element(ElementView),
    Text(Seq<char>),
}

impl<'a> View for Node<'a> {
    type V = NodeView;

    open spec fn view(&self) -> NodeView
        decreases self,
    {
        match self {
            Node::Comment(comment) => NodeView::Comment(comment@),
            Node::Doctype(doctype) => NodeView::Doctype(*doctype),
            Node::Element(element) => NodeView::Element(element@),
            Node::Text(text) => NodeView::Text(text@),
        }
    }
}

impl<'a> From<Doctype> for Node<'a> {
    fn from(doctype: Doctype) -> (node: Self) {
        Node::Doctype(doctype)
    }
}

impl<'a> FromSpecImpl<Doctype> for Node<'a> {
    open spec fn obeys_from_spec() -> bool {
        true
    }

    open spec fn from_spec(doctype: Doctype) -> Self {
        Node::Doctype(doctype)
    }
}

impl<'a> From<Element<'a>> for Node<'a> {
    fn from(element: Element<'a>) -> (node: Self) {
        Node::Element(element)
    }
}

impl<'a> FromSpecImpl<Element<'a>> for Node<'a> {
    open spec fn obeys_from_spec() -> bool {
        true
    }

    open spec fn from_spec(element: Element<'a>) -> Self {
        Node::Element(element)
    }
}

impl<'a> From<Comment<'a>> for Node<'a> {
    fn from(comment: Comment<'a>) -> (node: Self) {
        Node::Comment(comment)
    }
}

impl<'a> FromSpecImpl<Comment<'a>> for Node<'a> {
    open spec fn obeys_from_spec() -> bool {
        true
    }

    open spec fn from_spec(comment: Comment<'a>) -> Self {
        Node::Comment(comment)
    }
}

/// What a sequence of nodes stands for.
pub open spec fn nodes_view(nodes: Seq<Node>) -> Seq<NodeView>
    decreases nodes,
{
    if nodes.len() == 0 {
        Seq::empty()
    } else {
        nodes_view(nodes.drop_last()).push(nodes.last()@)
    }
}

/// The node at each position of a sequence stands for itself.
pub proof fn lemma_nodes_view(nodes: Seq<Node>)
    ensures
        nodes_view(nodes).len() == nodes.len(),
        forall|i: int| 0 <= i < nodes.len() ==> (#[trigger] nodes_view(nodes)[i]) == nodes[i]@,
    decreases nodes.len(),
{
    if nodes.len() > 0 {
        lemma_nodes_view(nodes.drop_last());
        assert(nodes_view(nodes) == nodes_view(nodes.drop_last()).push(nodes.last()@));
    } else {
        assert(nodes_view(nodes) == Seq::<NodeView>::empty());
    }
}

/// A comment, a doctype or an element at the start of `s`, tried in that
/// order: what follows it, and the node.
pub open spec fn non_text(s: Seq<char>) -> Option<(Seq<char>, NodeView)>
    decreases s.len(), 1nat, 0nat,
{
    match comment(s) {
        Some((rest, body)) => Some((rest, NodeView::Comment(body))),
        None => match doctype(s) {
            Some((rest, found)) => Some((rest, NodeView::Doctype(found))),
            None => match element(s) {
                Some((rest, found)) => Some((rest, NodeView::Element(found))),
                None => None,
            },
        },
    }
}

/// The text run of `s` whose first `from` characters are already known to
/// belong to it: what follows the run, the run without its trailing
/// whitespace, and the node that ended it, if one did.
///
/// The run ends in front of the first `<` at which an end tag starts or a
/// comment, doctype or element parses. Any other `<` belongs to the run.
pub open spec fn text_from(s: Seq<char>, from: nat) -> (Seq<char>, (Seq<char>, Option<NodeView>))
    decreases s.len(), 2nat, s.len() - from,
{
    let at = from + span(s.skip(from as int), CharClass::Except('<'));
    if at >= s.len() {
        (Seq::empty(), (trim_end(s), None))
    } else if end_tag(s.skip(at as int)) is Some {
        (s.skip(at as int), (trim_end(s.take(at as int)), None))
    } else {
        match non_text(s.skip(at as int)) {
            Some((rest, node)) => (rest, (trim_end(s.take(at as int)), Some(node))),
            None => text_from(s, at + 1),
        }
    }
}

/// The text run at the start of `s`, after leading whitespace. There is none
/// where nothing but whitespace is left.
pub open spec fn text(s: Seq<char>) -> Option<(Seq<char>, (Seq<char>, Option<NodeView>))> {
    if trim_start(s).len() == 0 {
        None
    } else {
        Some(text_from(trim_start(s), 0))
    }
}

/// The nodes at the start of `s`, which has no leading whitespace: what
/// follows them, and the nodes.
///
/// The sequence ends in front of an end tag, or where the input ends.
/// Whitespace between two nodes belongs to neither. What is neither a
/// comment, a doctype nor an element is text.
///
/// The comparison of lengths bounds the recursion. It never fails: a node
/// takes at least one character, and so does a text run where no node and no
/// end tag starts.
pub open spec fn nodes_from(s: Seq<char>) -> (Seq<char>, Seq<NodeView>)
    decreases s.len(), 3nat, 0nat,
{
    if end_tag(s) is Some {
        (s, Seq::empty())
    } else if s.len() == 0 {
        (Seq::empty(), Seq::empty())
    } else {
        let (rest, found) = match non_text(s) {
            Some((rest, node)) => (rest, seq![node]),
            None => {
                let (rest, (body, node)) = text_from(s, 0);
                match node {
                    Some(node) => (rest, seq![NodeView::Text(body), node]),
                    None => (rest, seq![NodeView::Text(body)]),
                }
            },
        };
        let next = trim_start(rest);
        if next.len() < s.len() {
            (nodes_from(next).0, found + nodes_from(next).1)
        } else {
            (next, found)
        }
    }
}

/// The nodes at the start of `s`, after leading whitespace: what follows
/// them, and the nodes.
pub open spec fn nodes(s: Seq<char>) -> (Seq<char>, Seq<NodeView>)
    decreases s.len(), 4nat, 0nat,
{
    proof {
        lemma_span(s, CharClass::Whitespace);
    }
    nodes_from(trim_start(s))
}

/// Whether every character of the name may appear in a tag name.
pub open spec fn tag_name_ok(name: Seq<char>) -> bool {
    forall|i: int| 0 <= i < name.len() ==> tag_name_char(#[trigger] name[i])
}

/// Whether the name of the attribute is not empty and every character of it
/// may appear in an attribute name.
pub open spec fn attribute_ok(attribute: AttributeView) -> bool {
    &&& attribute.0.len() > 0
    &&& forall|i: int| 0 <= i < attribute.0.len() ==> attribute_name_char(#[trigger] attribute.0[i])
}

/// Whether every attribute of the list is [`attribute_ok`].
pub open spec fn attributes_ok(attributes: Seq<AttributeView>) -> bool {
    forall|i: int| 0 <= i < attributes.len() ==> attribute_ok(#[trigger] attributes[i])
}

/// Whether the text has no whitespace at either end and no end tag starts in
/// it.
pub open spec fn text_ok(text: Seq<char>) -> bool {
    &&& trim(text) == text
    &&& forall|at: int| 0 <= at < text.len() ==> end_tag(#[trigger] text.skip(at)) is None
}

/// Whether the body of a comment holds no closing delimiter.
pub open spec fn comment_ok(body: Seq<char>) -> bool {
    find(body, "-->"@) is None
}

impl NodeView {
    /// What holds of every node that the parsers build: see [`comment_ok`],
    /// [`text_ok`] and [`ElementView::well_formed`].
    pub open spec fn well_formed(self) -> bool
        decreases self,
    {
        match self {
            NodeView::Comment(body) => comment_ok(body),
            NodeView::Doctype(_) => true,
            NodeView::Element(element) => element.well_formed(),
            NodeView::Text(text) => text_ok(text),
        }
    }
}

impl ElementView {
    /// What holds of every element that the parsers build: its name is a tag
    /// name, its attributes have names, and an element with content has no
    /// void name and only well-formed content.
    pub open spec fn well_formed(self) -> bool
        decreases self,
    {
        match self {
            ElementView::Void { name, attributes } => tag_name_ok(name) && attributes_ok(
                attributes,
            ),
            ElementView::Normal { name, attributes, content } => {
                &&& tag_name_ok(name)
                &&& !void_name(name)
                &&& attributes_ok(attributes)
                &&& all_well_formed(content)
            },
        }
    }
}

/// Whether every node of the sequence is well-formed.
pub open spec fn all_well_formed(nodes: Seq<NodeView>) -> bool
    decreases nodes,
{
    nodes.len() == 0 || (all_well_formed(nodes.drop_last()) && nodes.last().well_formed())
}

/// What an optional node stands for.
pub open spec fn node_option_view(node: Option<Node>) -> Option<NodeView> {
    match node {
        Some(node) => Some(node@),
        None => None,
    }
}

/// An element takes at least one character.
pub proof fn lemma_element_consumes(s: Seq<char>)
    ensures
        element(s) matches Some((rest, _)) ==> rest.len() < s.len(),
    decreases s.len(), 0nat, 0nat,
{
    lemma_start_tag_consumes(s);
    if let Some((inner, tag)) = start_tag(s) {
        if !(void_name(tag.name) || tag.self_closing) {
            lemma_nodes_consume(inner);
            lemma_end_tag_consumes(nodes(inner).0);
        }
    }
}

/// A comment, a doctype or an element takes at least one character.
pub proof fn lemma_non_text_consumes(s: Seq<char>)
    ensures
        non_text(s) matches Some((rest, _)) ==> rest.len() < s.len(),
    decreases s.len(), 1nat, 0nat,
{
    lemma_comment_consumes(s);
    lemma_doctype_consumes(s);
    lemma_element_consumes(s);
}

/// A text run leaves none of the characters that were known to belong to
/// it.
pub proof fn lemma_text_from_consumes(s: Seq<char>, from: nat)
    requires
        from <= s.len(),
    ensures
        text_from(s, from).0.len() + from <= s.len(),
    decreases s.len(), 2nat, s.len() - from,
{
    lemma_span(s.skip(from as int), CharClass::Except('<'));
    let at = from + span(s.skip(from as int), CharClass::Except('<'));
    if at < s.len() && end_tag(s.skip(at as int)) is None {
        lemma_non_text_consumes(s.skip(at as int));
        if non_text(s.skip(at as int)) is None {
            lemma_text_from_consumes(s, at + 1);
        }
    }
}

/// Where no node and no end tag starts, a text run takes at least one
/// character.
pub proof fn lemma_text_consumes(s: Seq<char>)
    requires
        s.len() > 0,
        end_tag(s) is None,
        non_text(s) is None,
    ensures
        text_from(s, 0).0.len() < s.len(),
    decreases s.len(), 2nat, s.len() + 1,
{
    assert(s.skip(0) == s);
    lemma_span(s, CharClass::Except('<'));
    let at = span(s, CharClass::Except('<'));
    if at == 0 {
        lemma_text_from_consumes(s, 1);
    } else {
        lemma_text_from_consumes(s, 0);
        if at < s.len() && end_tag(s.skip(at as int)) is None {
            lemma_non_text_consumes(s.skip(at as int));
            if non_text(s.skip(at as int)) is None {
                lemma_text_from_consumes(s, at + 1);
            }
        }
    }
}

/// After a node or a text run less is left than before it.
pub proof fn lemma_nodes_from_step(s: Seq<char>)
    requires
        s.len() > 0,
        end_tag(s) is None,
    ensures
        non_text(s) matches Some((rest, _)) ==> trim_start(rest).len() < s.len(),
        non_text(s) is None ==> trim_start(text_from(s, 0).0).len() < s.len(),
    decreases s.len(), 2nat, s.len() + 2,
{
    lemma_non_text_consumes(s);
    match non_text(s) {
        Some((rest, _)) => {
            lemma_trim_start(rest);
        },
        None => {
            lemma_text_consumes(s);
            lemma_trim_start(text_from(s, 0).0);
        },
    }
}

/// A node sequence leaves no more than it was given.
pub proof fn lemma_nodes_from_consume(s: Seq<char>)
    ensures
        nodes_from(s).0.len() <= s.len(),
    decreases s.len(), 3nat, 0nat,
{
    if end_tag(s) is None && s.len() > 0 {
        lemma_nodes_from_step(s);
        match non_text(s) {
            Some((rest, _)) => {
                lemma_nodes_from_consume(trim_start(rest));
            },
            None => {
                lemma_nodes_from_consume(trim_start(text_from(s, 0).0));
            },
        }
    }
}

/// A node sequence leaves no more than it was given.
pub proof fn lemma_nodes_consume(s: Seq<char>)
    ensures
        nodes(s).0.len() <= s.len(),
    decreases s.len(), 4nat, 0nat,
{
    lemma_trim_start(s);
    lemma_nodes_from_consume(trim_start(s));
}

impl<'a> Node<'a> {
    /// Takes the input as text up to a node, an end tag or the end of the
    /// input. Returns the text and, where a node ended it, that node.
    pub fn parse_text(input: &'a str) -> (out: Result<
        (&'a str, (Node<'a>, Option<Node<'a>>)),
        ParseError,
    >)
        ensures
            match out {
                Ok((rest, (body, next))) => body is Text && text(input@) == Some(
                    (rest@, (body->Text_0@, node_option_view(next))),
                ),
                Err(_) => text(input@) is None,
            },
        decreases input@.len(), 2nat, 0nat,
    {
        let run = trim_start_of(input);
        if run.is_empty() {
            return Err(ParseError);
        }
        proof {
            lemma_trim_start(input@);
        }
        note_length_fits(run);
        let mut rest = run;
        let mut index: usize = 0;
        loop
            invariant
                run@ == trim_start(input@),
                0 < run@.len() <= input@.len(),
                index <= run@.len() <= usize::MAX,
                rest@ == run@.skip(index as int),
                text_from(run@, 0) == text_from(run@, index as nat),
            decreases run@.len() - index,
        {
            let (passed, at) = scan_while(rest, CharClass::Except('<'));
            proof {
                lemma_span(rest@, CharClass::Except('<'));
                assert(run@.skip(index as int).skip(passed as int) == run@.skip(index + passed));
            }
            index += passed;
            if at.is_empty() {
                assert(at@ == Seq::<char>::empty());
                return Ok((at, (Node::Text(trim_end_of(run)), None)));
            }
            if Element::parse_end_tag(at).is_ok() {
                let body = trim_end_of(run.substring_char(0, index));
                return Ok((at, (Node::Text(body), None)));
            }
            match Self::parse_non_text(at) {
                Ok((rest, next)) => {
                    let body = trim_end_of(run.substring_char(0, index));
                    return Ok((rest, (Node::Text(body), Some(next))));
                },
                Err(_) => {},
            }
            match split_first(at) {
                Some((_, tail)) => {
                    assert(run@.skip(index as int).drop_first() == run@.skip(index + 1));
                    rest = tail;
                    index += 1;
                },
                None => {
                    return Err(ParseError);
                },
            }
        }
    }

    /// Parses a comment, a doctype or an element, tried in that order.
    pub fn parse_non_text(input: &'a str) -> (out: Result<(&'a str, Node<'a>), ParseError>)
        ensures
            match out {
                Ok((rest, found)) => non_text(input@) == Some((rest@, found@))
                    && found@.well_formed(),
                Err(_) => non_text(input@) is None,
            },
        decreases input@.len(), 1nat, 0nat,
    {
        proof {
            lemma_non_text_is_well_formed(input@);
        }
        match Comment::parse(input) {
            Ok((rest, found)) => {
                return Ok((rest, Node::from(found)));
            },
            Err(_) => {},
        }
        match Doctype::parse(input) {
            Ok((rest, found)) => {
                return Ok((rest, Node::from(found)));
            },
            Err(_) => {},
        }
        match Element::parse(input) {
            Ok((rest, found)) => Ok((rest, Node::from(found))),
            Err(e) => Err(e),
        }
    }

    /// Parses nodes until an end tag or the end of the input. The end tag is
    /// left in the remaining input. This never fails: what is no node is
    /// text. The nodes are well-formed.
    pub fn parse_many(input: &'a str) -> (out: Result<(&'a str, Vec<Node<'a>>), ParseError>)
        ensures
            out matches Ok((rest, found)) && nodes(input@) == (rest@, nodes_view(found@))
                && all_well_formed(nodes_view(found@)),
        decreases input@.len(), 4nat, 0nat,
    {
        let mut remaining = trim_start_of(input);
        let mut buffer: Vec<Node<'a>> = Vec::new();
        proof {
            lemma_nodes_are_well_formed(input@);
            lemma_trim_start(input@);
            assert(nodes_view(buffer@) + nodes_from(remaining@).1 == nodes_from(remaining@).1);
        }
        loop
            invariant
                remaining@.len() <= input@.len(),
                trim_start(remaining@) == remaining@,
                all_well_formed(nodes(input@).1),
                nodes(input@) == (
                    nodes_from(remaining@).0,
                    nodes_view(buffer@) + nodes_from(remaining@).1,
                ),
            decreases remaining@.len(),
        {
            if Element::parse_end_tag(remaining).is_ok() {
                assert(nodes_view(buffer@) + Seq::empty() == nodes_view(buffer@));
                return Ok((remaining, buffer));
            }
            if remaining.is_empty() {
                assert(nodes_view(buffer@) + Seq::empty() == nodes_view(buffer@));
                return Ok((remaining, buffer));
            }
            proof {
                lemma_nodes_from_step(remaining@);
            }
            let ghost before = nodes_view(buffer@);
            let ghost found;
            let rest = match Self::parse_non_text(remaining) {
                Ok((rest, node)) => {
                    proof {
                        found = seq![node@];
                        assert(nodes_view(buffer@.push(node)) == before + found) by {
                            assert(buffer@.push(node).drop_last() == buffer@);
                        }
                    }
                    buffer.push(node);
                    rest
                },
                Err(_) => {
                    let (rest, (body, next)) = Self::parse_text(remaining)?;
                    proof {
                        assert(buffer@.push(body).drop_last() == buffer@);
                        assert(nodes_view(buffer@.push(body)) == before.push(body@));
                    }
                    buffer.push(body);
                    match next {
                        Some(node) => {
                            proof {
                                found = seq![body@, node@];
                                assert(buffer@.push(node).drop_last() == buffer@);
                                assert(before.push(body@).push(node@) == before + found);
                                assert(nodes_view(buffer@.push(node)) == before + found);
                            }
                            buffer.push(node);
                        },
                        None => {
                            proof {
                                found = seq![body@];
                                assert(before.push(body@) == before + found);
                                assert(nodes_view(buffer@) == before + found);
                            }
                        },
                    }
                    rest
                },
            };
            proof {
                lemma_trim_start(rest@);
                let next = trim_start(rest@);
                assert((before + found) + nodes_from(next).1 == before + (found + nodes_from(
                    next,
                ).1));
            }
            remaining = trim_start_of(rest);
        }
    }
}

} // verus!
