//! Every parser leaves an end of its input.

use crate::ast::{lemma_nodes_from_step, nodes, nodes_from, non_text, text_from};
use crate::ast::comment::comment;
use crate::ast::doctype::{doctype, legacy_string, quoted_legacy_compat};
use crate::ast::element::{
    attributes, element, end_tag, lemma_start_tag_consumes, start_tag, void_name,
};
use crate::ast::element::util::{attribute, attribute_name, lemma_attribute_consumes, tag_name};
use crate::ast::util::{after_space, after_spaces, then_char, then_prefix, then_space, CharClass};
use crate::text::{after_char, after_prefix, find, lemma_find, lemma_span, span, trim_start};
use vstd::prelude::*;

verus! {

/// Whether `rest` is what is left of `s` behind some of its characters.
pub open spec fn ends(s: Seq<char>, rest: Seq<char>) -> bool {
    rest.len() <= s.len() && s.skip(s.len() - rest.len()) == rest
}

/// What is left behind the first characters of a text ends it.
pub proof fn lemma_ends_skip(s: Seq<char>, n: int)
    requires
        0 <= n <= s.len(),
    ensures
        ends(s, s.skip(n)),
{
}

/// What ends the end of a text ends the text.
pub proof fn lemma_ends_ends(s: Seq<char>, middle: Seq<char>, rest: Seq<char>)
    requires
        ends(s, middle),
        ends(middle, rest),
    ensures
        ends(s, rest),
{
    assert(s.skip(s.len() - middle.len()).skip(middle.len() - rest.len()) == s.skip(
        s.len() - rest.len(),
    ));
}

/// What is left behind a run of a class ends the text.
pub proof fn lemma_ends_span(s: Seq<char>, class: CharClass)
    ensures
        ends(s, s.skip(span(s, class) as int)),
{
    lemma_span(s, class);
}

/// What an attribute leaves ends the text.
pub proof fn lemma_attribute_leaves_end(s: Seq<char>)
    ensures
        attribute(s) matches Some((rest, _)) ==> ends(s, rest),
{
    lemma_ends_span(s, CharClass::AttributeName);
    if let Some((named, _)) = attribute_name(s) {
        lemma_ends_span(named, CharClass::AsciiWhitespace);
        let equals = named.skip(span(named, CharClass::AsciiWhitespace) as int);
        if let Some(spaced) = after_char(equals, '=') {
            lemma_ends_skip(equals, 1);
            lemma_ends_span(spaced, CharClass::AsciiWhitespace);
            let value = spaced.skip(span(spaced, CharClass::AsciiWhitespace) as int);
            lemma_ends_ends(named, equals, spaced);
            lemma_ends_ends(named, spaced, value);
            lemma_ends_ends(s, named, value);
            lemma_ends_span(value, CharClass::UnquotedValue);
            lemma_ends_ends(
                s,
                value,
                value.skip(span(value, CharClass::UnquotedValue) as int),
            );
            if value.len() > 0 {
                let inner = value.drop_first();
                lemma_ends_skip(value, 1);
                lemma_ends_ends(s, value, inner);
                lemma_quoted_leaves_end(s, inner, '"');
                lemma_quoted_leaves_end(s, inner, '\'');
            }
        }
    }
}

/// What the closing quote of a value leaves ends the text.
proof fn lemma_quoted_leaves_end(s: Seq<char>, inner: Seq<char>, quote: char)
    requires
        ends(s, inner),
    ensures
        after_char(inner.skip(span(inner, CharClass::Except(quote)) as int), quote) matches Some(
            rest,
        ) ==> ends(s, rest),
{
    lemma_ends_span(inner, CharClass::Except(quote));
    let closing = inner.skip(span(inner, CharClass::Except(quote)) as int);
    if closing.len() > 0 {
        lemma_ends_skip(closing, 1);
        lemma_ends_ends(inner, closing, closing.drop_first());
        lemma_ends_ends(s, inner, closing.drop_first());
    }
}

/// What the attributes leave ends the text.
pub proof fn lemma_attributes_leave_end(s: Seq<char>)
    ensures
        ({
            let (rest, _) = attributes(s);
            ends(s, rest)
        }),
    decreases s.len(),
{
    lemma_ends_skip(s, 0);
    assert(s.skip(0) == s);
    if let Some(spaced) = after_space(s) {
        lemma_ends_span(s, CharClass::AsciiWhitespace);
        lemma_span(s, CharClass::AsciiWhitespace);
        lemma_attribute_consumes(spaced);
        lemma_attribute_leaves_end(spaced);
        if let Some((rest, _)) = attribute(spaced) {
            lemma_attributes_leave_end(rest);
            let (end, _) = attributes(rest);
            lemma_ends_ends(spaced, rest, end);
            lemma_ends_ends(s, spaced, end);
        }
    }
}

/// What a tag name leaves ends the text.
pub proof fn lemma_tag_name_leaves_end(s: Seq<char>)
    ensures
        ({
            let (rest, _) = tag_name(s);
            ends(s, rest)
        }),
{
    lemma_ends_span(s, CharClass::TagName);
}

/// What a start tag leaves ends the text.
pub proof fn lemma_start_tag_leaves_end(s: Seq<char>)
    ensures
        start_tag(s) matches Some((rest, _)) ==> ends(s, rest),
{
    if let Some(opened) = after_char(s, '<') {
        lemma_ends_skip(s, 1);
        lemma_tag_name_leaves_end(opened);
        let (named, _) = tag_name(opened);
        lemma_attributes_leave_end(named);
        let (listed, _) = attributes(named);
        lemma_ends_span(listed, CharClass::AsciiWhitespace);
        let spaced = after_spaces(listed);
        lemma_ends_ends(opened, named, listed);
        lemma_ends_ends(opened, listed, spaced);
        lemma_ends_ends(s, opened, spaced);
        let closing = match after_char(spaced, '/') {
            Some(closing) => closing,
            None => spaced,
        };
        if spaced.len() > 0 {
            lemma_ends_skip(spaced, 1);
            lemma_ends_ends(s, spaced, spaced.drop_first());
        }
        if closing.len() > 0 {
            lemma_ends_skip(closing, 1);
            lemma_ends_ends(s, closing, closing.drop_first());
        }
    }
}

/// What an end tag leaves ends the text.
pub proof fn lemma_end_tag_leaves_end(s: Seq<char>)
    ensures
        end_tag(s) matches Some((rest, _)) ==> ends(s, rest),
{
    if let Some(opened) = after_char(s, '<') {
        lemma_ends_skip(s, 1);
        if let Some(slashed) = after_char(opened, '/') {
            lemma_ends_skip(opened, 1);
            lemma_ends_ends(s, opened, slashed);
            lemma_ends_span(slashed, CharClass::AsciiWhitespace);
            let spaced = after_spaces(slashed);
            lemma_tag_name_leaves_end(spaced);
            let (named, _) = tag_name(spaced);
            lemma_ends_span(named, CharClass::AsciiWhitespace);
            let closing = after_spaces(named);
            lemma_ends_ends(s, slashed, spaced);
            lemma_ends_ends(s, spaced, named);
            lemma_ends_ends(s, named, closing);
            if closing.len() > 0 {
                lemma_ends_skip(closing, 1);
                lemma_ends_ends(s, closing, closing.drop_first());
            }
        }
    }
}

/// What a comment leaves ends the text.
pub proof fn lemma_comment_leaves_end(s: Seq<char>)
    ensures
        comment(s) matches Some((rest, _)) ==> ends(s, rest),
{
    if let Some(inner) = after_prefix(s, "<!--"@, false) {
        lemma_ends_skip(s, "<!--"@.len() as int);
        if let Some(end) = find(inner, "-->"@) {
            lemma_find(inner, "-->"@);
            lemma_ends_skip(inner, (end + "-->"@.len()) as int);
            lemma_ends_ends(s, inner, inner.skip((end + "-->"@.len()) as int));
        }
    }
}

/// Whether what an earlier step left, if it left something, ends `s`.
pub open spec fn step_ends(s: Seq<char>, step: Option<Seq<char>>) -> bool {
    step matches Some(rest) ==> ends(s, rest)
}

/// The steps of which the leaf parsers are made each leave an end of what
/// they were given.
pub proof fn lemma_steps_leave_end(s: Seq<char>, step: Option<Seq<char>>)
    requires
        step_ends(s, step),
    ensures
        forall|c: char| step_ends(s, #[trigger] then_char(step, c)),
        forall|pattern: Seq<char>, fold: bool|
            step_ends(s, #[trigger] then_prefix(step, pattern, fold)),
        step_ends(s, then_space(step)),
{
    if let Some(middle) = step {
        assert forall|c: char| step_ends(s, #[trigger] then_char(step, c)) by {
            if let Some(rest) = then_char(step, c) {
                lemma_ends_skip(middle, 1);
                lemma_ends_ends(s, middle, rest);
            }
        }
        assert forall|pattern: Seq<char>, fold: bool|
            step_ends(s, #[trigger] then_prefix(step, pattern, fold)) by {
            if let Some(rest) = then_prefix(step, pattern, fold) {
                lemma_ends_skip(middle, pattern.len() as int);
                lemma_ends_ends(s, middle, rest);
            }
        }
        if let Some(rest) = then_space(step) {
            lemma_ends_span(middle, CharClass::AsciiWhitespace);
            lemma_ends_ends(s, middle, rest);
        }
    }
}

/// What a doctype leaves ends the text.
pub proof fn lemma_doctype_leaves_end(s: Seq<char>)
    ensures
        doctype(s) matches Some((rest, _)) ==> ends(s, rest),
{
    assert(s.skip(0) == s);
    let opened = then_char(Some(s), '<');
    lemma_steps_leave_end(s, Some(s));
    let bang = then_char(opened, '!');
    lemma_steps_leave_end(s, opened);
    let keyword = then_prefix(bang, "DOCTYPE"@, true);
    lemma_steps_leave_end(s, bang);
    let spaced = then_space(keyword);
    lemma_steps_leave_end(s, keyword);
    let named = then_prefix(spaced, "html"@, true);
    lemma_steps_leave_end(s, spaced);
    lemma_steps_leave_end(s, named);
    if named is Some {
        let system = then_space(named);
        let legacy_keyword = then_prefix(system, "SYSTEM"@, true);
        lemma_steps_leave_end(s, system);
        let quoted = then_space(legacy_keyword);
        lemma_steps_leave_end(s, legacy_keyword);
        lemma_steps_leave_end(s, quoted);
        lemma_legacy_compat_leaves_end(s, quoted, '"');
        lemma_legacy_compat_leaves_end(s, quoted, '\'');
        let closing = match system {
            Some(spaced) => legacy_string(spaced),
            None => None,
        };
        assert(step_ends(s, closing));
        lemma_steps_leave_end(s, closing);
        assert(step_ends(s, then_char(closing, '>')));
        assert(step_ends(s, then_char(named, '>')));
    }
}

/// What the quoted part of the legacy string leaves ends the text.
proof fn lemma_legacy_compat_leaves_end(s: Seq<char>, step: Option<Seq<char>>, quote: char)
    requires
        step_ends(s, step),
    ensures
        step matches Some(quoted) ==> step_ends(
            s,
            quoted_legacy_compat(quoted, quote),
        ),
{
    lemma_steps_leave_end(s, step);
    let opened = then_char(step, quote);
    lemma_steps_leave_end(s, opened);
    let named = then_prefix(opened, "about:legacy-compat"@, false);
    lemma_steps_leave_end(s, named);
}

/// What an element leaves ends the text.
pub proof fn lemma_element_leaves_end(s: Seq<char>)
    ensures
        element(s) matches Some((rest, _)) ==> ends(s, rest),
    decreases s.len(), 0nat, 0nat,
{
    lemma_start_tag_consumes(s);
    lemma_start_tag_leaves_end(s);
    if let Some((inner, tag)) = start_tag(s) {
        if !(void_name(tag.name) || tag.self_closing) {
            lemma_nodes_leave_end(inner);
            let (closing, _) = nodes(inner);
            lemma_end_tag_leaves_end(closing);
            if let Some((rest, _)) = end_tag(closing) {
                lemma_ends_ends(inner, closing, rest);
                lemma_ends_ends(s, inner, rest);
            }
        }
    }
}

/// What a comment, a doctype or an element leaves ends the text.
pub proof fn lemma_non_text_leaves_end(s: Seq<char>)
    ensures
        non_text(s) matches Some((rest, _)) ==> ends(s, rest),
    decreases s.len(), 1nat, 0nat,
{
    lemma_comment_leaves_end(s);
    lemma_doctype_leaves_end(s);
    lemma_element_leaves_end(s);
}

/// What a text run leaves ends the text.
pub proof fn lemma_text_leaves_end(s: Seq<char>, from: nat)
    requires
        from <= s.len(),
    ensures
        ({
            let (rest, _) = text_from(s, from);
            ends(s, rest)
        }),
    decreases s.len(), 2nat, s.len() - from,
{
    lemma_span(s.skip(from as int), CharClass::Except('<'));
    let at = from + span(s.skip(from as int), CharClass::Except('<'));
    if at >= s.len() {
        assert(s.skip(s.len() as int) == Seq::<char>::empty());
    } else {
        lemma_ends_skip(s, at as int);
        if end_tag(s.skip(at as int)) is None {
            lemma_non_text_leaves_end(s.skip(at as int));
            match non_text(s.skip(at as int)) {
                Some((rest, _)) => {
                    lemma_ends_ends(s, s.skip(at as int), rest);
                },
                None => {
                    lemma_text_leaves_end(s, at + 1);
                },
            }
        }
    }
}

/// What a node sequence leaves ends the text.
pub proof fn lemma_nodes_from_leave_end(s: Seq<char>)
    ensures
        ({
            let (rest, _) = nodes_from(s);
            ends(s, rest)
        }),
    decreases s.len(), 3nat, 0nat,
{
    assert(s.skip(0) == s);
    assert(s.skip(s.len() as int) == Seq::<char>::empty());
    if end_tag(s) is None && s.len() > 0 {
        lemma_nodes_from_step(s);
        lemma_non_text_leaves_end(s);
        lemma_text_leaves_end(s, 0);
        let rest = match non_text(s) {
            Some((rest, _)) => rest,
            None => {
                let (rest, _) = text_from(s, 0);
                rest
            },
        };
        let next = trim_start(rest);
        lemma_ends_span(rest, CharClass::Whitespace);
        lemma_nodes_from_leave_end(next);
        let (end, _) = nodes_from(next);
        lemma_ends_ends(s, rest, next);
        lemma_ends_ends(s, next, end);
    }
}

/// Every parser leaves an end of its input: what a node sequence leaves is
/// what stands behind the characters that it took.
pub proof fn lemma_nodes_leave_end(s: Seq<char>)
    ensures
        ({
            let (rest, _) = nodes(s);
            ends(s, rest)
        }),
    decreases s.len(), 4nat, 0nat,
{
    lemma_ends_span(s, CharClass::Whitespace);
    lemma_span(s, CharClass::Whitespace);
    lemma_nodes_from_leave_end(trim_start(s));
    let (rest, _) = nodes(s);
    lemma_ends_ends(s, trim_start(s), rest);
}

} // verus!
