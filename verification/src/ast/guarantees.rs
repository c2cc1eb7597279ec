//! What holds of every tree that the parsers build.

use crate::ast::{
    all_well_formed, attribute_ok, attributes_ok, lemma_nodes_from_step, nodes, nodes_from,
    non_text, tag_name_ok, text, text_from, text_ok, NodeView,
};
use crate::ast::comment::{comment, comment_body};
use crate::ast::element::{
    attributes, element, end_tag, lemma_end_tag_of_front, lemma_start_tag_consumes, start_tag,
    void_name,
};
use crate::ast::element::util::{attribute, lemma_attribute_consumes, tag_name};
use crate::ast::util::{after_space, whitespace, CharClass};
use crate::text::{
    after_char, after_prefix, begins, find, last_position, lemma_begins_skip, lemma_find,
    lemma_last_position, lemma_span, lemma_trim_start, lemma_trimmed_len, same_char, span,
    starts_with, trim, trim_end, trim_start, trimmed_len,
};
use vstd::prelude::*;

verus! {

/// A node sequence ends where the input ends or in front of an end tag, and
/// nowhere else.
pub proof fn lemma_nodes_end(s: Seq<char>)
    ensures
        nodes(s).0.len() == 0 || end_tag(nodes(s).0) is Some,
{
    lemma_trim_start(s);
    lemma_nodes_from_end(trim_start(s));
}

/// See [`lemma_nodes_end`].
pub proof fn lemma_nodes_from_end(s: Seq<char>)
    ensures
        nodes_from(s).0.len() == 0 || end_tag(nodes_from(s).0) is Some,
    decreases s.len(),
{
    if end_tag(s) is None && s.len() > 0 {
        lemma_nodes_from_step(s);
        match non_text(s) {
            Some((rest, _)) => {
                lemma_nodes_from_end(trim_start(rest));
            },
            None => {
                lemma_nodes_from_end(trim_start(text_from(s, 0).0));
            },
        }
    }
}

/// No part of the text in front of the first occurrence of a pattern holds
/// the pattern.
pub proof fn lemma_find_in_part(s: Seq<char>, pattern: Seq<char>, end: nat, from: int, to: int)
    requires
        find(s, pattern) == Some(end),
        pattern.len() > 0,
        0 <= from <= to <= end,
    ensures
        find(s.subrange(from, to), pattern) is None,
{
    lemma_find(s, pattern);
    let part = s.subrange(from, to);
    lemma_find(part, pattern);
    if let Some(at) = find(part, pattern) {
        assert forall|i: int| 0 <= i < pattern.len() implies s.skip(from + at)[i] == pattern[i] by {
            assert(part.skip(at as int)[i] == pattern[i]);
        }
        assert(starts_with(s.skip(from + at), pattern, false));
    }
}

/// The body of a comment holds no closing delimiter.
pub proof fn lemma_comment_body_holds_no_delimiter(s: Seq<char>)
    ensures
        comment(s) matches Some((_, body)) ==> find(body, "-->"@) is None,
{
    reveal_strlit("-->");
    if let Some(inner) = after_prefix(s, "<!--"@, false) {
        if let Some(end) = find(inner, "-->"@) {
            lemma_find(inner, "-->"@);
            let raw = inner.take(end as int);
            lemma_span(raw, CharClass::Whitespace);
            lemma_trimmed_len(trim_start(raw));
            lemma_span(raw, CharClass::Except('\n'));
            lemma_last_position(raw, '\n');
            let skipped = span(raw, CharClass::Whitespace) as int;
            let kept = trimmed_len(trim_start(raw)) as int;
            assert(trim(raw) == inner.subrange(skipped, skipped + kept));
            if trim(raw).contains('\n') {
                let first = span(raw, CharClass::Except('\n')) as int;
                let last = last_position(raw, '\n');
                if first < last {
                    assert(comment_body(raw) == inner.subrange(first + 1, last));
                    lemma_find_in_part(inner, "-->"@, end, first + 1, last);
                } else {
                    assert(comment_body(raw) == inner.subrange(0, 0));
                    lemma_find_in_part(inner, "-->"@, end, 0, 0);
                }
            } else {
                lemma_find_in_part(inner, "-->"@, end, skipped, skipped + kept);
            }
        }
    }
}

/// Whether a node or an end tag starts at the beginning of `s`.
pub open spec fn starts_markup(s: Seq<char>) -> bool {
    end_tag(s) is Some || non_text(s) is Some
}

/// The first position of `s`, from `from` on, at which a node or an end tag
/// starts; the length of `s` where there is none.
pub open spec fn text_end(s: Seq<char>, from: nat) -> nat
    decreases s.len() - from,
{
    if from >= s.len() {
        s.len()
    } else if starts_markup(s.skip(from as int)) {
        from
    } else {
        text_end(s, from + 1)
    }
}

/// Every node and every end tag starts with `<`.
pub proof fn lemma_markup_starts_with_bracket(s: Seq<char>)
    requires
        starts_markup(s),
    ensures
        s.len() > 0,
        s[0] == '<',
{
    reveal_strlit("<!--");
    if end_tag(s) is None && comment(s) is Some {
        assert("<!--"@[0] == '<');
        assert(same_char(s[0], "<!--"@[0], false));
    }
}

/// Positions at which no markup starts do not end a text run.
pub proof fn lemma_text_end_skips(s: Seq<char>, from: nat, to: nat)
    requires
        from <= to <= s.len(),
        forall|j: int| from <= j < to ==> !starts_markup(#[trigger] s.skip(j)),
    ensures
        text_end(s, from) == text_end(s, to),
    decreases to - from,
{
    if from < to {
        lemma_text_end_skips(s, from + 1, to);
    }
}

/// A text run ends in front of the first node or end tag that starts in
/// it, or with the input: it holds no end tag and no node. What ended the run
/// decides what is left, and which node comes with the text.
pub proof fn lemma_text_run(s: Seq<char>, from: nat)
    requires
        from <= s.len(),
    ensures
        ({
            let at = text_end(s, from) as int;
            let (rest, (body, node)) = text_from(s, from);
            &&& from <= at <= s.len()
            &&& body == trim_end(s.take(at))
            &&& forall|j: int| from <= j < at ==> !starts_markup(#[trigger] s.skip(j))
            &&& at == s.len() ==> rest.len() == 0 && node is None
            &&& at < s.len() ==> starts_markup(s.skip(at))
            &&& at < s.len() && end_tag(s.skip(at)) is Some ==> rest == s.skip(at) && node is None
            &&& at < s.len() && end_tag(s.skip(at)) is None ==> node is Some && non_text(s.skip(at))
                == Some((rest, node.unwrap()))
        }),
    decreases s.len() - from,
{
    let tail = s.skip(from as int);
    lemma_span(tail, CharClass::Except('<'));
    let next = from + span(tail, CharClass::Except('<'));
    assert forall|j: int| from <= j < next implies !starts_markup(#[trigger] s.skip(j)) by {
        assert(s.skip(j)[0] == tail[j - from]);
        if starts_markup(s.skip(j)) {
            lemma_markup_starts_with_bracket(s.skip(j));
        }
    }
    lemma_text_end_skips(s, from, next);
    if next >= s.len() {
        assert(s.take(s.len() as int) == s);
    } else if !starts_markup(s.skip(next as int)) {
        lemma_text_run(s, next + 1);
        assert(text_from(s, from) == text_from(s, next + 1));
        assert(text_end(s, next) == text_end(s, next + 1));
        let at = text_end(s, next + 1) as int;
        assert forall|j: int| from <= j < at implies !starts_markup(#[trigger] s.skip(j)) by {
            if j > next {
                assert(next + 1 <= j);
            }
        }
    } else {
        assert(text_end(s, next) == next);
    }
}

/// The text of a text node has no whitespace at either end.
pub proof fn lemma_text_is_trimmed(s: Seq<char>)
    ensures
        text(s) matches Some((_, (body, _))) ==> trim(body) == body,
{
    let run = trim_start(s);
    if run.len() > 0 {
        lemma_span(s, CharClass::Whitespace);
        lemma_text_run(run, 0);
        let at = text_end(run, 0) as int;
        let body = trim_end(run.take(at));
        lemma_trimmed_len(run.take(at));
        if body.len() > 0 {
            assert(body[0] == run[0]);
            assert(run[0] == s[span(s, CharClass::Whitespace) as int]);
            assert(!whitespace(body[0]));
            assert(body.last() == run.take(at)[trimmed_len(run.take(at)) - 1]);
        }
        assert(span(body, CharClass::Whitespace) == 0);
        assert(body.skip(0) == body);
        assert(trimmed_len(body) == body.len());
        assert(body.take(body.len() as int) == body);
    }
}

/// A sequence is well-formed exactly when its front and its back are.
pub proof fn lemma_all_well_formed_concat(front: Seq<NodeView>, back: Seq<NodeView>)
    ensures
        all_well_formed(front + back) <==> all_well_formed(front) && all_well_formed(back),
    decreases back.len(),
{
    if back.len() == 0 {
        assert(front + back == front);
    } else {
        lemma_all_well_formed_concat(front, back.drop_last());
        assert((front + back).drop_last() == front + back.drop_last());
        assert((front + back).last() == back.last());
    }
}

/// A tag name holds tag name characters only.
pub proof fn lemma_tag_name_ok(s: Seq<char>)
    ensures
        ({
            let (_, name) = tag_name(s);
            tag_name_ok(name)
        }),
{
    lemma_span(s, CharClass::TagName);
}

/// The name of an attribute is not empty and holds attribute name
/// characters only.
pub proof fn lemma_attribute_ok(s: Seq<char>)
    ensures
        attribute(s) matches Some((_, found)) ==> attribute_ok(found),
{
    lemma_span(s, CharClass::AttributeName);
}

/// See [`lemma_attribute_ok`].
pub proof fn lemma_attributes_ok(s: Seq<char>)
    ensures
        ({
            let (_, found) = attributes(s);
            attributes_ok(found)
        }),
    decreases s.len(),
{
    if let Some(spaced) = after_space(s) {
        if let Some((rest, first)) = attribute(spaced) {
            lemma_span(s, CharClass::AsciiWhitespace);
            lemma_attribute_consumes(spaced);
            lemma_attribute_ok(spaced);
            lemma_attributes_ok(rest);
            let (_, more) = attributes(rest);
            let (_, found) = attributes(s);
            assert(found == seq![first] + more);
            assert forall|i: int| 0 <= i < found.len() implies attribute_ok(#[trigger] found[i]) by {
                if i > 0 {
                    assert(found[i] == more[i - 1]);
                }
            }
        }
    }
}

/// The text of a run that starts with a character that is no whitespace has
/// no whitespace at either end, and no end tag starts in it.
pub proof fn lemma_text_ok(s: Seq<char>)
    requires
        s.len() > 0,
        !whitespace(s[0]),
    ensures
        ({
            let (_, (body, _)) = text_from(s, 0);
            text_ok(body)
        }),
{
    lemma_text_run(s, 0);
    let at = text_end(s, 0) as int;
    let body = trim_end(s.take(at));
    lemma_trimmed_len(s.take(at));
    if body.len() > 0 {
        assert(body[0] == s[0]);
        assert(body.last() == s.take(at)[trimmed_len(s.take(at)) - 1]);
    }
    assert(span(body, CharClass::Whitespace) == 0);
    assert(body.skip(0) == body);
    assert(trimmed_len(body) == body.len());
    assert(body.take(body.len() as int) == body);
    assert(begins(s, body)) by {
        assert(s.take(body.len() as int) == body);
    }
    assert forall|j: int| 0 <= j < body.len() implies end_tag(#[trigger] body.skip(j)) is None by {
        lemma_begins_skip(s, body, j);
        if end_tag(body.skip(j)) is Some {
            lemma_end_tag_of_front(s.skip(j), body.skip(j));
            assert(!starts_markup(s.skip(j)));
        }
    }
}

/// Every element that the grammar finds is well-formed.
pub proof fn lemma_element_is_well_formed(s: Seq<char>)
    ensures
        element(s) matches Some((_, found)) ==> found.well_formed(),
    decreases s.len(), 0nat, 0nat,
{
    lemma_start_tag_consumes(s);
    if let Some((inner, tag)) = start_tag(s) {
        let opened = after_char(s, '<').unwrap();
        lemma_tag_name_ok(opened);
        let (named, _) = tag_name(opened);
        lemma_attributes_ok(named);
        if !(void_name(tag.name) || tag.self_closing) {
            lemma_nodes_are_well_formed(inner);
        }
    }
}

/// Every comment, doctype and element that the grammar finds is
/// well-formed.
pub proof fn lemma_non_text_is_well_formed(s: Seq<char>)
    ensures
        non_text(s) matches Some((_, found)) ==> found.well_formed(),
    decreases s.len(), 1nat, 0nat,
{
    lemma_comment_body_holds_no_delimiter(s);
    lemma_element_is_well_formed(s);
}

/// The node that ends a text run is well-formed.
pub proof fn lemma_text_end_is_well_formed(s: Seq<char>, from: nat)
    requires
        from <= s.len(),
    ensures
        ({
            let (_, (_, node)) = text_from(s, from);
            node matches Some(found) ==> found.well_formed()
        }),
    decreases s.len(), 2nat, s.len() - from,
{
    lemma_span(s.skip(from as int), CharClass::Except('<'));
    let at = from + span(s.skip(from as int), CharClass::Except('<'));
    if at < s.len() && end_tag(s.skip(at as int)) is None {
        lemma_non_text_is_well_formed(s.skip(at as int));
        if non_text(s.skip(at as int)) is None {
            lemma_text_end_is_well_formed(s, at + 1);
        }
    }
}

/// Every node of a sequence that the grammar finds is well-formed.
pub proof fn lemma_nodes_from_are_well_formed(s: Seq<char>)
    requires
        trim_start(s) == s,
    ensures
        ({
            let (_, found) = nodes_from(s);
            all_well_formed(found)
        }),
    decreases s.len(), 3nat, 0nat,
{
    if end_tag(s) is None && s.len() > 0 {
        lemma_nodes_from_step(s);
        lemma_non_text_is_well_formed(s);
        lemma_span(s, CharClass::Whitespace);
        assert(!whitespace(s[0])) by {
            if span(s, CharClass::Whitespace) > 0 {
                assert(s.skip(span(s, CharClass::Whitespace) as int).len() < s.len());
            }
        }
        let (rest, first) = match non_text(s) {
            Some((rest, node)) => (rest, seq![node]),
            None => {
                let (rest, (body, node)) = text_from(s, 0);
                match node {
                    Some(node) => (rest, seq![NodeView::Text(body), node]),
                    None => (rest, seq![NodeView::Text(body)]),
                }
            },
        };
        if non_text(s) is None {
            lemma_text_ok(s);
            lemma_text_end_is_well_formed(s, 0);
        }
        assert(all_well_formed(first)) by {
            reveal_with_fuel(all_well_formed, 3);
            assert(first.drop_last().len() == first.len() - 1);
            if first.len() == 2 {
                assert(first.drop_last().last() == first[0]);
                assert(first.drop_last().drop_last().len() == 0);
            }
        }
        let next = trim_start(rest);
        lemma_trim_start(rest);
        lemma_nodes_from_are_well_formed(next);
        let (_, more) = nodes_from(next);
        lemma_all_well_formed_concat(first, more);
    }
}

/// Every node of a sequence that the grammar finds is well-formed: no end
/// tag starts in a text, a text has no whitespace at either end, a comment
/// holds no closing delimiter, and names hold the characters of names only.
pub proof fn lemma_nodes_are_well_formed(s: Seq<char>)
    ensures
        ({
            let (_, found) = nodes(s);
            all_well_formed(found)
        }),
    decreases s.len(), 4nat, 0nat,
{
    lemma_trim_start(s);
    lemma_nodes_from_are_well_formed(trim_start(s));
}

} // verus!
