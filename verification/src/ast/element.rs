//! Elements: start tags with their attributes, content and end tags.

use crate::ast::element::util::{
    attribute, lemma_attribute_consumes, lemma_tag_name_consumes, parse_attribute,
    parse_tag_name, tag_name,
};
use crate::ast::util::{
    after_space, after_spaces, expect_char, expect_space, skip_spaces, CharClass,
};
use crate::ast::{nodes, nodes_view, Node, NodeView, ParseError};
use crate::text::{
    after_char, begins, eq, eq_ignoring_ascii_case, lemma_begins_skip, lemma_span,
    lemma_span_of_front, same_ignoring_ascii_case, span, strip_char,
};
use crate::ast::guarantees::lemma_element_is_well_formed;
use vstd::prelude::*;

pub mod util;

verus! {

/// An attribute as the grammar sees it: its name and, where one was given,
/// its value.
pub type AttributeView = (Seq<char>, Option<Seq<char>>);

/// An element: a start tag with its attributes, and, unless it is void, the
/// nodes up to its end tag.
#[derive(Debug, PartialEq, Eq, Hash)]
pub enum Element<'a> {
    Normal { name: &'a str, attributes: Vec<(&'a str, Option<&'a str>)>, content: Vec<Node<'a>> },
    Void { name: &'a str, attributes: Vec<(&'a str, Option<&'a str>)> },
}

/// What an [`Element`] stands for.
pub enum ElementView {
    Normal { name: Seq<char>, attributes: Seq<AttributeView>, content: Seq<NodeView> },
    Void { name: Seq<char>, attributes: Seq<AttributeView> },
}

/// What an attribute stands for.
pub open spec fn attribute_view(attribute: (&str, Option<&str>)) -> AttributeView {
    (
        attribute.0@,
        match attribute.1 {
            Some(value) => Some(value@),
            None => None,
        },
    )
}

/// What a list of attributes stands for.
pub open spec fn attributes_view(attributes: Seq<(&str, Option<&str>)>) -> Seq<AttributeView> {
    attributes.map_values(|attribute: (&str, Option<&str>)| attribute_view(attribute))
}

impl<'a> View for Element<'a> {
    type V = ElementView;

    open spec fn view(&self) -> ElementView
        decreases self,
    {
        match self {
            Element::Normal { name, attributes, content } => ElementView::Normal {
                name: name@,
                attributes: attributes_view(attributes@),
                content: nodes_view(content@),
            },
            Element::Void { name, attributes } => ElementView::Void {
                name: name@,
                attributes: attributes_view(attributes@),
            },
        }
    }
}

/// Whether `name` is, up to the case of ASCII letters, one of the element
/// names that never have content.
pub open spec fn void_name(name: Seq<char>) -> bool {
    ||| same_ignoring_ascii_case(name, "area"@)
    ||| same_ignoring_ascii_case(name, "base"@)
    ||| same_ignoring_ascii_case(name, "br"@)
    ||| same_ignoring_ascii_case(name, "col"@)
    ||| same_ignoring_ascii_case(name, "embed"@)
    ||| same_ignoring_ascii_case(name, "hr"@)
    ||| same_ignoring_ascii_case(name, "img"@)
    ||| same_ignoring_ascii_case(name, "input"@)
    ||| same_ignoring_ascii_case(name, "link"@)
    ||| same_ignoring_ascii_case(name, "meta"@)
    ||| same_ignoring_ascii_case(name, "param"@)
    ||| same_ignoring_ascii_case(name, "source"@)
    ||| same_ignoring_ascii_case(name, "track"@)
    ||| same_ignoring_ascii_case(name, "wbr"@)
}

/// The attributes at the start of `s`, each after one or more ASCII
/// whitespace characters: what follows the last one, and the attributes in
/// the order in which they are written.
///
/// The comparison of lengths bounds the recursion. It never fails: an
/// attribute takes at least one character.
pub open spec fn attributes(s: Seq<char>) -> (Seq<char>, Seq<AttributeView>)
    decreases s.len(),
{
    match after_space(s) {
        Some(spaced) => match attribute(spaced) {
            Some((rest, found)) => if rest.len() < s.len() {
                (attributes(rest).0, seq![found] + attributes(rest).1)
            } else {
                (s, Seq::empty())
            },
            None => (s, Seq::empty()),
        },
        None => (s, Seq::empty()),
    }
}

/// The parts of a start tag.
pub struct StartTag {
    pub name: Seq<char>,
    pub attributes: Seq<AttributeView>,
    /// Whether a `/` stands in front of the closing `>`.
    pub self_closing: bool,
}

/// A start tag at the start of `s`: what follows it, and its parts.
pub open spec fn start_tag(s: Seq<char>) -> Option<(Seq<char>, StartTag)> {
    match after_char(s, '<') {
        Some(opened) => {
            let (named, name) = tag_name(opened);
            let (listed, attributes) = attributes(named);
            let spaced = after_spaces(listed);
            let (closing, self_closing) = match after_char(spaced, '/') {
                Some(closing) => (closing, true),
                None => (spaced, false),
            };
            match after_char(closing, '>') {
                Some(rest) => Some((rest, StartTag { name, attributes, self_closing })),
                None => None,
            }
        },
        None => None,
    }
}

/// An end tag at the start of `s`: what follows it, and its name. ASCII
/// whitespace may stand on both sides of the name.
pub open spec fn end_tag(s: Seq<char>) -> Option<(Seq<char>, Seq<char>)> {
    match after_char(s, '<') {
        Some(opened) => match after_char(opened, '/') {
            Some(slashed) => {
                let (named, name) = tag_name(after_spaces(slashed));
                match after_char(after_spaces(named), '>') {
                    Some(rest) => Some((rest, name)),
                    None => None,
                }
            },
            None => None,
        },
        None => None,
    }
}

/// An end tag at the start of `front` is an end tag, of the same name, at
/// the start of every text that begins with `front`.
pub proof fn lemma_end_tag_of_front(s: Seq<char>, front: Seq<char>)
    requires
        begins(s, front),
        end_tag(front) is Some,
    ensures
        end_tag(s) matches Some((_, name)) && end_tag(front) matches Some((_, same)) && name
            == same,
{
    lemma_begins_skip(s, front, 0);
    lemma_begins_skip(s, front, 1);
    lemma_begins_skip(s.skip(1), front.skip(1), 1);
    let slashed = front.drop_first().drop_first();
    let wide = s.drop_first().drop_first();
    assert(begins(wide, slashed)) by {
        assert(slashed == front.skip(1).skip(1));
        assert(wide == s.skip(1).skip(1));
    }
    lemma_span(slashed, CharClass::AsciiWhitespace);
    let spaced = after_spaces(slashed);
    lemma_span(spaced, CharClass::TagName);
    let named = tag_name(spaced).0;
    lemma_span(named, CharClass::AsciiWhitespace);
    let closing = after_spaces(named);
    lemma_span_of_front(wide, slashed, CharClass::AsciiWhitespace);
    lemma_begins_skip(wide, slashed, span(slashed, CharClass::AsciiWhitespace) as int);
    lemma_span_of_front(after_spaces(wide), spaced, CharClass::TagName);
    lemma_begins_skip(after_spaces(wide), spaced, span(spaced, CharClass::TagName) as int);
    let wide_named = tag_name(after_spaces(wide)).0;
    lemma_span_of_front(wide_named, named, CharClass::AsciiWhitespace);
    lemma_begins_skip(wide_named, named, span(named, CharClass::AsciiWhitespace) as int);
    lemma_begins_skip(after_spaces(wide_named), closing, 0);
    assert(tag_name(after_spaces(wide)).1 == tag_name(spaced).1) by {
        let len = span(spaced, CharClass::TagName) as int;
        assert(after_spaces(wide).take(len) == spaced.take(len)) by {
            assert(after_spaces(wide).take(spaced.len() as int) == spaced);
            assert(after_spaces(wide).take(spaced.len() as int).take(len) == after_spaces(
                wide,
            ).take(len));
        }
    }
}

/// An element at the start of `s`: what follows it, and the element.
///
/// A start tag whose name is a void name, or which is self-closing, is an
/// element by itself. Any other start tag is followed by its content and by
/// an end tag of exactly the same name.
///
/// The comparison of lengths bounds the recursion. It never fails: a start
/// tag takes at least two characters.
pub open spec fn element(s: Seq<char>) -> Option<(Seq<char>, ElementView)>
    decreases s.len(), 0nat, 0nat,
{
    match start_tag(s) {
        Some((inner, tag)) => if void_name(tag.name) || tag.self_closing {
            Some((inner, ElementView::Void { name: tag.name, attributes: tag.attributes }))
        } else if inner.len() < s.len() {
            let (closing, content) = nodes(inner);
            match end_tag(closing) {
                Some((rest, name)) => if name == tag.name {
                    Some(
                        (
                            rest,
                            ElementView::Normal {
                                name: tag.name,
                                attributes: tag.attributes,
                                content,
                            },
                        ),
                    )
                } else {
                    None
                },
                None => None,
            }
        } else {
            None
        },
        None => None,
    }
}

/// The attribute list leaves no more than it was given.
pub proof fn lemma_attributes_consume(s: Seq<char>)
    ensures
        attributes(s).0.len() <= s.len(),
    decreases s.len(),
{
    lemma_span(s, CharClass::AsciiWhitespace);
    if let Some(spaced) = after_space(s) {
        lemma_attribute_consumes(spaced);
        if let Some((rest, _)) = attribute(spaced) {
            lemma_attributes_consume(rest);
        }
    }
}

/// A start tag takes at least its two angle brackets.
pub proof fn lemma_start_tag_consumes(s: Seq<char>)
    ensures
        start_tag(s) matches Some((rest, _)) ==> rest.len() + 2 <= s.len(),
{
    if let Some(opened) = after_char(s, '<') {
        lemma_tag_name_consumes(opened);
        let named = tag_name(opened).0;
        lemma_attributes_consume(named);
        lemma_span(attributes(named).0, CharClass::AsciiWhitespace);
    }
}

/// An end tag takes at least its three delimiters.
pub proof fn lemma_end_tag_consumes(s: Seq<char>)
    ensures
        end_tag(s) matches Some((rest, _)) ==> rest.len() + 3 <= s.len(),
{
    if let Some(opened) = after_char(s, '<') {
        if let Some(slashed) = after_char(opened, '/') {
            lemma_span(slashed, CharClass::AsciiWhitespace);
            lemma_tag_name_consumes(after_spaces(slashed));
            lemma_span(tag_name(after_spaces(slashed)).0, CharClass::AsciiWhitespace);
        }
    }
}

/// Whether `name` is a void name: see [`void_name`].
pub fn is_void_name(name: &str) -> (void: bool)
    ensures
        void == void_name(name@),
{
    eq_ignoring_ascii_case(name, "area") || eq_ignoring_ascii_case(name, "base")
        || eq_ignoring_ascii_case(name, "br") || eq_ignoring_ascii_case(name, "col")
        || eq_ignoring_ascii_case(name, "embed") || eq_ignoring_ascii_case(name, "hr")
        || eq_ignoring_ascii_case(name, "img") || eq_ignoring_ascii_case(name, "input")
        || eq_ignoring_ascii_case(name, "link") || eq_ignoring_ascii_case(name, "meta")
        || eq_ignoring_ascii_case(name, "param") || eq_ignoring_ascii_case(name, "source")
        || eq_ignoring_ascii_case(name, "track") || eq_ignoring_ascii_case(name, "wbr")
}

/// Parses the attributes of a start tag: see [`attributes`].
fn parse_attributes<'a>(input: &'a str) -> (out: (&'a str, Vec<(&'a str, Option<&'a str>)>))
    ensures
        attributes(input@) == (out.0@, attributes_view(out.1@)),
{
    let mut rest = input;
    let mut found: Vec<(&'a str, Option<&'a str>)> = Vec::new();
    assert(attributes_view(found@) + attributes(rest@).1 == attributes(rest@).1);
    loop
        invariant
            attributes(input@) == (
                attributes(rest@).0,
                attributes_view(found@) + attributes(rest@).1,
            ),
        decreases rest@.len(),
    {
        match expect_space(rest) {
            Ok(spaced) => match parse_attribute(spaced) {
                Ok((next, attribute)) => {
                    proof {
                        lemma_span(rest@, CharClass::AsciiWhitespace);
                        lemma_attribute_consumes(spaced@);
                        assert(attributes_view(found@.push(attribute)) == attributes_view(
                            found@,
                        ).push(attribute_view(attribute)));
                        assert(attributes_view(found@).push(attribute_view(attribute))
                            + attributes(next@).1 == attributes_view(found@) + (
                            seq![attribute_view(attribute)] + attributes(next@).1));
                    }
                    found.push(attribute);
                    rest = next;
                },
                Err(_) => {
                    assert(attributes_view(found@) + Seq::empty() == attributes_view(found@));
                    return (rest, found);
                },
            },
            Err(_) => {
                assert(attributes_view(found@) + Seq::empty() == attributes_view(found@));
                return (rest, found);
            },
        }
    }
}

impl<'a> Element<'a> {
    /// Parses `<`, a tag name, the attributes, an optional `/`, and `>`.
    fn parse_start_tag(input: &'a str) -> (out: Result<
        (&'a str, (&'a str, Vec<(&'a str, Option<&'a str>)>, bool)),
        ParseError,
    >)
        ensures
            match out {
                Ok((rest, (name, attributes, self_closing))) => start_tag(input@) == Some(
                    (
                        rest@,
                        StartTag {
                            name: name@,
                            attributes: attributes_view(attributes@),
                            self_closing,
                        },
                    ),
                ),
                Err(_) => start_tag(input@) is None,
            },
    {
        let opened = expect_char(input, '<')?;
        let (named, name) = parse_tag_name(opened)?;
        let (listed, attributes) = parse_attributes(named);
        let spaced = skip_spaces(listed);
        let (closing, self_closing) = match strip_char(spaced, '/') {
            Some(closing) => (closing, true),
            None => (spaced, false),
        };
        let rest = expect_char(closing, '>')?;
        Ok((rest, (name, attributes, self_closing)))
    }

    /// Parses `</`, a tag name with optional ASCII whitespace on both sides,
    /// and `>`; returns the name.
    pub fn parse_end_tag(input: &'a str) -> (out: Result<(&'a str, &'a str), ParseError>)
        ensures
            match out {
                Ok((rest, name)) => end_tag(input@) == Some((rest@, name@)),
                Err(_) => end_tag(input@) is None,
            },
    {
        let opened = expect_char(input, '<')?;
        let slashed = expect_char(opened, '/')?;
        let (named, name) = parse_tag_name(skip_spaces(slashed))?;
        let rest = expect_char(skip_spaces(named), '>')?;
        Ok((rest, name))
    }

    /// Parses an element: a void or self-closing start tag, or a start tag,
    /// content and the end tag of the same name.
    pub fn parse(input: &'a str) -> (out: Result<(&'a str, Element<'a>), ParseError>)
        ensures
            match out {
                Ok((rest, found)) => element(input@) == Some((rest@, found@))
                    && found@.well_formed(),
                Err(_) => element(input@) is None,
            },
        decreases input@.len(), 0nat, 0nat,
    {
        proof {
            lemma_element_is_well_formed(input@);
        }
        let (inner, (name, attributes, self_closing)) = Self::parse_start_tag(input)?;
        if is_void_name(name) || self_closing {
            return Ok((inner, Element::Void { name, attributes }));
        }
        proof {
            lemma_start_tag_consumes(input@);
        }
        let (closing, content) = Node::parse_many(inner)?;
        let (rest, end_name) = Self::parse_end_tag(closing)?;
        if !eq(name, end_name) {
            return Err(ParseError);
        }
        Ok((rest, Element::Normal { name, attributes, content }))
    }
}

} // verus!
