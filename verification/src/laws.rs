//! What the formatter promises: general facts about the grammar and the
//! layout that follow from their definitions.

use crate::ast::{nodes, NodeView};
use crate::ast::comment::comment_body;
use crate::ast::element::{
    attributes, element, end_tag, lemma_start_tag_consumes, start_tag, void_name, AttributeView,
    ElementView, StartTag,
};
use crate::ast::element::util::{attribute, lemma_attribute_consumes};
use crate::ast::util::{after_space, CharClass};
use crate::configuration::Configuration;
use crate::format::{
    attribute_block, attribute_layout, attributes_layout, children_layout, content_block,
    element_layout, forced_multiline, formatted, node_layout, separator, soft_line, text_layout,
    top_level_layout, words_layout,
};
use crate::layout::{any_forces_break, forces_break, Layout};
use crate::text::{
    last_position, lemma_last_position, lemma_span, lemma_trim_start, lemma_trimmed_len, span,
    trim, trim_start, trimmed_len, words,
};
use vstd::prelude::*;

verus! {

/// An input is canonical for a configuration when formatting gives it back.
pub open spec fn canonical(input: Seq<char>, config: Configuration) -> bool {
    formatted(input, config) == Some(input)
}

/// Formatting a canonical input any number of times changes nothing: the
/// result of formatting it is the input, and formatting that result gives
/// the same again.
pub proof fn lemma_canonical_is_stable(input: Seq<char>, config: Configuration)
    requires
        canonical(input, config),
    ensures
        formatted(input, config) matches Some(once) && once == input && formatted(once, config)
            == Some(once) && canonical(once, config),
{
}

/// Whitespace in front of the input does not change the result.
pub proof fn lemma_leading_whitespace_is_ignored(input: Seq<char>, config: Configuration)
    ensures
        nodes(trim_start(input)) == nodes(input),
        formatted(trim_start(input), config) == formatted(input, config),
{
    lemma_trim_start(input);
}

/// Top-level nodes are laid out one by one, in their order: the layout of
/// a sequence is the layout of its front followed by the layout of its back.
pub proof fn lemma_top_level_keeps_order(front: Seq<NodeView>, back: Seq<NodeView>, indent: int)
    ensures
        top_level_layout(front + back, indent) == top_level_layout(front, indent)
            + top_level_layout(back, indent),
    decreases back.len(),
{
    if back.len() == 0 {
        assert(front + back == front);
        assert(top_level_layout(front, indent) + top_level_layout(back, indent)
            == top_level_layout(front, indent));
    } else {
        lemma_top_level_keeps_order(front, back.drop_last(), indent);
        assert((front + back).drop_last() == front + back.drop_last());
        assert((front + back).last() == back.last());
        let last = seq![node_layout(back.last(), indent), Layout::Line0];
        assert(top_level_layout(front + back, indent) == top_level_layout(
            front + back.drop_last(),
            indent,
        ) + last);
        assert(top_level_layout(back, indent) == top_level_layout(back.drop_last(), indent)
            + last);
        assert((top_level_layout(front, indent) + top_level_layout(back.drop_last(), indent))
            + last == top_level_layout(front, indent) + (top_level_layout(
            back.drop_last(),
            indent,
        ) + last));
    }
}

/// A start tag with a void name is an element without content, whether or
/// not it is self-closing: two start tags of the same void name and the same
/// attributes give the same element, with the same layout.
pub proof fn lemma_void_name_ignores_self_closing(
    a: Seq<char>,
    b: Seq<char>,
    name: Seq<char>,
    attributes: Seq<AttributeView>,
    indent: int,
)
    requires
        void_name(name),
        start_tag(a) matches Some((_, tag)) && tag.name == name && tag.attributes == attributes,
        start_tag(b) matches Some((_, tag)) && tag.name == name && tag.attributes == attributes,
    ensures
        element(a) matches Some((_, found)) && found == (ElementView::Void { name, attributes }),
        element(b) matches Some((_, found)) && found == (ElementView::Void { name, attributes }),
{
}

/// A start tag that is neither void nor self-closing makes an element
/// exactly when an end tag follows its content whose name is the start tag's
/// name, character for character. A name that differs in case only does not
/// close the element.
pub proof fn lemma_end_tag_name_is_exact(s: Seq<char>, inner: Seq<char>, tag: StartTag)
    requires
        start_tag(s) == Some((inner, tag)),
        !void_name(tag.name),
        !tag.self_closing,
    ensures
        element(s) is Some <==> (end_tag(nodes(inner).0) matches Some((_, name)) && name
            == tag.name),
        element(s) matches Some((_, found)) ==> found is Normal && found->Normal_name == tag.name,
{
    lemma_start_tag_consumes(s);
}

/// Attributes are read in the order in which they are written: the first
/// attribute of a list is the first one found, and the others follow it.
pub proof fn lemma_attributes_keep_order(
    s: Seq<char>,
    spaced: Seq<char>,
    rest: Seq<char>,
    first: AttributeView,
)
    requires
        after_space(s) == Some(spaced),
        attribute(spaced) == Some((rest, first)),
    ensures
        attributes(s).1 == seq![first] + attributes(rest).1,
        attributes(s).0 == attributes(rest).0,
{
    lemma_span(s, CharClass::AsciiWhitespace);
    lemma_attribute_consumes(spaced);
}

/// The layout of an attribute list is the layouts of its attributes, in
/// their order: nothing is moved, merged or dropped, also where a name
/// occurs twice.
pub proof fn lemma_attributes_layout_keeps_order(
    front: Seq<AttributeView>,
    back: Seq<AttributeView>,
)
    ensures
        attributes_layout(front + back) == attributes_layout(front) + attributes_layout(back),
    decreases back.len(),
{
    if back.len() == 0 {
        assert(front + back == front);
        assert(attributes_layout(front) + attributes_layout(back) == attributes_layout(front));
    } else {
        lemma_attributes_layout_keeps_order(front, back.drop_last());
        assert((front + back).drop_last() == front + back.drop_last());
        assert((front + back).last() == back.last());
        assert(attributes_layout(front + back) == attributes_layout(front + back.drop_last())
            + attribute_layout(back.last()));
        assert(attributes_layout(back) == attributes_layout(back.drop_last()) + attribute_layout(
            back.last(),
        ));
        assert((attributes_layout(front) + attributes_layout(back.drop_last()))
            + attribute_layout(back.last()) == attributes_layout(front) + (attributes_layout(
            back.drop_last(),
        ) + attribute_layout(back.last())));
    }
}

/// The body of a comment is a part of what stands between its delimiters,
/// character for character: the whole without the whitespace around it, or
/// the lines between the first and the last line break as they are.
pub proof fn lemma_comment_body_is_verbatim(raw: Seq<char>)
    ensures
        exists|from: int, to: int|
            0 <= from <= to <= raw.len() && comment_body(raw) == #[trigger] raw.subrange(from, to),
        !trim(raw).contains('\n') ==> comment_body(raw) == trim(raw),
{
    lemma_span(raw, CharClass::Whitespace);
    lemma_trimmed_len(trim_start(raw));
    lemma_span(raw, CharClass::Except('\n'));
    lemma_last_position(raw, '\n');
    let skipped = span(raw, CharClass::Whitespace) as int;
    let kept = trimmed_len(trim_start(raw)) as int;
    assert(trim(raw) == raw.subrange(skipped, skipped + kept));
    if trim(raw).contains('\n') {
        let first = span(raw, CharClass::Except('\n')) as int;
        let last = last_position(raw, '\n');
        if first < last {
            assert(comment_body(raw) == raw.subrange(first + 1, last));
        } else {
            assert(comment_body(raw) == raw.subrange(0, 0));
        }
    }
}

/// A concatenation forces a line break exactly where one of its parts does.
pub proof fn lemma_any_forces_break(parts: Seq<Layout>)
    ensures
        any_forces_break(parts) <==> exists|i: int|
            0 <= i < parts.len() && forces_break(#[trigger] parts[i]),
    decreases parts.len(),
{
    if parts.len() > 0 {
        let front = parts.drop_last();
        lemma_any_forces_break(front);
        if any_forces_break(parts) {
            if forces_break(parts.last()) {
                assert(forces_break(parts[parts.len() - 1]));
            } else {
                let i = choose|i: int| 0 <= i < front.len() && forces_break(#[trigger] front[i]);
                assert(forces_break(parts[i]));
            }
        }
        if exists|i: int| 0 <= i < parts.len() && forces_break(#[trigger] parts[i]) {
            let i = choose|i: int| 0 <= i < parts.len() && forces_break(#[trigger] parts[i]);
            if i < front.len() {
                assert(forces_break(front[i]));
            }
        }
    }
}

/// An element whose content holds no text, and is not empty, is laid out
/// with a forced line break in front of each node of the content.
pub proof fn lemma_elements_only_forces_break(
    name: Seq<char>,
    attributes: Seq<AttributeView>,
    content: Seq<NodeView>,
    indent: int,
)
    requires
        forced_multiline(content),
    ensures
        forall|i: int|
            0 <= i < content.len() ==> (#[trigger] children_layout(
                content,
                indent,
                separator(content),
            )[2 * i]) == Layout::Hardline,
        forces_break(element_layout(ElementView::Normal { name, attributes, content }, indent)),
{
    lemma_children_layout(content, indent, Layout::Hardline);
    let children = children_layout(content, indent, Layout::Hardline);
    assert(children[2 * 0int] == Layout::Hardline);
    assert(forces_break(children[0]));
    lemma_part_forces_break(children, 0);
    let nested = Layout::Nest(indent, Box::new(Layout::Concat(children)));
    assert(forces_break(nested));
    let inner = seq![nested, Layout::Line0];
    assert(inner[0] == nested);
    lemma_part_forces_break(inner, 0);
    assert(forces_break(content_block(content, indent)));
    let whole = seq![
        Layout::Text("<"@),
        Layout::Text(name),
        attribute_block(attributes, indent),
        Layout::Text(">"@),
        content_block(content, indent),
        Layout::Text("</"@),
        Layout::Text(name),
        Layout::Text(">"@),
    ];
    assert(whole[4] == content_block(content, indent));
    lemma_part_forces_break(whole, 4);
}

/// A concatenation forces a line break where one of its parts does.
pub proof fn lemma_part_forces_break(parts: Seq<Layout>, i: int)
    requires
        0 <= i < parts.len(),
        forces_break(parts[i]),
    ensures
        forces_break(Layout::Concat(parts)),
{
    lemma_any_forces_break(parts);
}

/// The content of an element is laid out node by node, each after the
/// separator.
pub proof fn lemma_children_layout(content: Seq<NodeView>, indent: int, separator: Layout)
    ensures
        children_layout(content, indent, separator).len() == 2 * content.len(),
        forall|i: int|
            0 <= i < content.len() ==> (#[trigger] children_layout(content, indent, separator)[2
                * i]) == separator,
        forall|i: int|
            0 <= i < content.len() ==> (#[trigger] children_layout(content, indent, separator)[2
                * i + 1]) == node_layout(content[i], indent),
    decreases content.len(),
{
    if content.len() > 0 {
        lemma_children_layout(content.drop_last(), indent, separator);
    }
}

/// Text is laid out without a forced line break: it breaks only where the
/// width asks for it.
pub proof fn lemma_text_never_forces_break(text: Seq<char>)
    ensures
        !forces_break(text_layout(text)),
{
    lemma_words_never_force_break(words(text));
    lemma_any_forces_break(words_layout(words(text)));
}

/// Words and the soft line breaks between them hold no forced line break.
pub proof fn lemma_words_never_force_break(words: Seq<Seq<char>>)
    ensures
        forall|i: int|
            0 <= i < words_layout(words).len() ==> !forces_break(#[trigger] words_layout(words)[i]),
    decreases words.len(),
{
    let laid_out = words_layout(words);
    assert forall|i: int| 0 <= i < laid_out.len() implies !forces_break(
        #[trigger] laid_out[i],
    ) by {
        if words.len() > 1 {
            let front = words_layout(words.drop_last());
            lemma_words_never_force_break(words.drop_last());
            if i < front.len() {
                assert(laid_out[i] == front[i]);
            } else if i == front.len() {
                assert(laid_out[i] == soft_line());
                assert(!forces_break(Layout::Line));
            } else {
                assert(laid_out[i] == Layout::Text(words.last()));
            }
        } else {
            assert(laid_out[i] == Layout::Text(words[0]));
        }
    }
}

} // verus!
