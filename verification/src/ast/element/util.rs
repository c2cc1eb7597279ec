//! The parts of a tag: tag names and attributes.

use crate::ast::element::AttributeView;
use crate::ast::util::{after_spaces, expect_char, skip_spaces, CharClass};
use crate::ast::ParseError;
use crate::text::{after_char, lemma_span, span, take_while};
use vstd::prelude::*;

verus! {

/// The longest run of one or more characters of `class` at the start of `s`:
/// what follows it, and the run.
pub open spec fn run(s: Seq<char>, class: CharClass) -> Option<(Seq<char>, Seq<char>)> {
    let len = span(s, class) as int;
    if len == 0 {
        None
    } else {
        Some((s.skip(len), s.take(len)))
    }
}

/// A tag name at the start of `s`: what follows it, and the name. The name is
/// the longest run of characters other than ASCII whitespace, `/` and `>`; it
/// may be empty.
pub open spec fn tag_name(s: Seq<char>) -> (Seq<char>, Seq<char>) {
    let len = span(s, CharClass::TagName) as int;
    (s.skip(len), s.take(len))
}

/// An attribute name at the start of `s`: what follows it, and the name.
pub open spec fn attribute_name(s: Seq<char>) -> Option<(Seq<char>, Seq<char>)> {
    run(s, CharClass::AttributeName)
}

/// A value between two `quote` characters at the start of `s`: what follows
/// the closing quote, and the value.
pub open spec fn quoted_value(s: Seq<char>, quote: char) -> Option<(Seq<char>, Seq<char>)> {
    match after_char(s, quote) {
        Some(inner) => {
            let len = span(inner, CharClass::Except(quote)) as int;
            match after_char(inner.skip(len), quote) {
                Some(rest) => Some((rest, inner.take(len))),
                None => None,
            }
        },
        None => None,
    }
}

/// A `=` and a value at the start of `s`, with optional ASCII whitespace on
/// both sides of the `=`: what follows the value, and the value. The value is
/// double-quoted, single-quoted or a run of [`CharClass::UnquotedValue`].
pub open spec fn attribute_value(s: Seq<char>) -> Option<(Seq<char>, Seq<char>)> {
    match after_char(after_spaces(s), '=') {
        Some(spaced) => {
            let value = after_spaces(spaced);
            match quoted_value(value, '"') {
                Some(found) => Some(found),
                None => match quoted_value(value, '\'') {
                    Some(found) => Some(found),
                    None => run(value, CharClass::UnquotedValue),
                },
            }
        },
        None => None,
    }
}

/// An attribute at the start of `s`: what follows it, and the attribute.
pub open spec fn attribute(s: Seq<char>) -> Option<(Seq<char>, AttributeView)> {
    match attribute_name(s) {
        Some((rest, name)) => match attribute_value(rest) {
            Some((rest, value)) => Some((rest, (name, Some(value)))),
            None => Some((rest, (name, None))),
        },
        None => None,
    }
}

/// An attribute takes at least one character.
pub proof fn lemma_attribute_consumes(s: Seq<char>)
    ensures
        attribute(s) matches Some((rest, _)) ==> rest.len() < s.len(),
{
    lemma_span(s, CharClass::AttributeName);
    if let Some((named, _)) = attribute_name(s) {
        lemma_span(named, CharClass::AsciiWhitespace);
        if let Some(spaced) = after_char(after_spaces(named), '=') {
            lemma_span(spaced, CharClass::AsciiWhitespace);
            let value = after_spaces(spaced);
            lemma_span(value, CharClass::UnquotedValue);
            if value.len() > 0 {
                lemma_span(value.drop_first(), CharClass::Except('"'));
                lemma_span(value.drop_first(), CharClass::Except('\''));
            }
        }
    }
}

/// A tag name leaves no more than it was given.
pub proof fn lemma_tag_name_consumes(s: Seq<char>)
    ensures
        tag_name(s).0.len() <= s.len(),
{
    lemma_span(s, CharClass::TagName);
}

/// Parses the longest run of one or more characters of `class`.
fn parse_run<'a>(input: &'a str, class: CharClass) -> (out: Result<(&'a str, &'a str), ParseError>)
    ensures
        match out {
            Ok((rest, found)) => run(input@, class) == Some((rest@, found@)),
            Err(_) => run(input@, class) is None,
        },
{
    let (found, rest) = take_while(input, class);
    if found.is_empty() {
        proof {
            lemma_span(input@, class);
        }
        Err(ParseError)
    } else {
        Ok((rest, found))
    }
}

/// Parses a value between two `quote` characters.
fn parse_quoted_value<'a>(input: &'a str, quote: char) -> (out: Result<
    (&'a str, &'a str),
    ParseError,
>)
    ensures
        match out {
            Ok((rest, found)) => quoted_value(input@, quote) == Some((rest@, found@)),
            Err(_) => quoted_value(input@, quote) is None,
        },
{
    let inner = expect_char(input, quote)?;
    let (found, closing) = take_while(inner, CharClass::Except(quote));
    let rest = expect_char(closing, quote)?;
    Ok((rest, found))
}

/// Parses `=` and a value, with optional ASCII whitespace around the `=`.
fn parse_attribute_value<'a>(input: &'a str) -> (out: Result<(&'a str, &'a str), ParseError>)
    ensures
        match out {
            Ok((rest, found)) => attribute_value(input@) == Some((rest@, found@)),
            Err(_) => attribute_value(input@) is None,
        },
{
    let spaced = expect_char(skip_spaces(input), '=')?;
    let value = skip_spaces(spaced);
    match parse_quoted_value(value, '"') {
        Ok(found) => Ok(found),
        Err(_) => match parse_quoted_value(value, '\'') {
            Ok(found) => Ok(found),
            Err(_) => parse_run(value, CharClass::UnquotedValue),
        },
    }
}

/// Parses an attribute name: the longest run of one or more characters that
/// may appear in one.
///
/// See <https://html.spec.whatwg.org/multipage/syntax.html#attributes-2>.
pub fn parse_attribute_name<'a>(input: &'a str) -> (out: Result<(&'a str, &'a str), ParseError>)
    ensures
        match out {
            Ok((rest, name)) => attribute_name(input@) == Some((rest@, name@)),
            Err(_) => attribute_name(input@) is None,
        },
{
    parse_run(input, CharClass::AttributeName)
}

/// Parses an attribute: a name and, where a `=` and a value follow it, the
/// value. Where none follows, or none that is complete, the attribute has no
/// value and ends with its name.
///
/// See <https://html.spec.whatwg.org/multipage/syntax.html#attributes-2>.
pub fn parse_attribute<'a>(input: &'a str) -> (out: Result<
    (&'a str, (&'a str, Option<&'a str>)),
    ParseError,
>)
    ensures
        match out {
            Ok((rest, found)) => attribute(input@) == Some(
                (rest@, crate::ast::element::attribute_view(found)),
            ),
            Err(_) => attribute(input@) is None,
        },
{
    let (rest, name) = parse_attribute_name(input)?;
    match parse_attribute_value(rest) {
        Ok((rest, value)) => Ok((rest, (name, Some(value)))),
        Err(_) => Ok((rest, (name, None))),
    }
}

/// Parses a tag name: the longest run of characters other than ASCII
/// whitespace, `/` and `>`. This never fails: the name may be empty.
///
/// See <https://html.spec.whatwg.org/multipage/syntax.html#syntax-tag-name>.
pub fn parse_tag_name<'a>(input: &'a str) -> (out: Result<(&'a str, &'a str), ParseError>)
    ensures
        out matches Ok((rest, name)) && tag_name(input@) == (rest@, name@),
{
    let (name, rest) = take_while(input, CharClass::TagName);
    Ok((rest, name))
}

} // verus!
