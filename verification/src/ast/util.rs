//! Character classes, and the steps of which the parsers are made.

use crate::ast::ParseError;
use crate::text::{
    after_char, after_prefix, skip_while, span, split_first, strip_char, strip_prefix,
};
use vstd::prelude::*;

verus! {

/// The five ASCII whitespace characters: tab, line feed, form feed, carriage
/// return and space.
pub open spec fn ascii_whitespace(c: char) -> bool {
    c == '\t' || c == '\n' || c == '\x0C' || c == '\r' || c == ' '
}

/// Characters with the Unicode `White_Space` property.
pub open spec fn whitespace(c: char) -> bool {
    ||| '\u{9}' <= c <= '\u{D}'
    ||| c == ' '
    ||| c == '\u{85}'
    ||| c == '\u{A0}'
    ||| c == '\u{1680}'
    ||| '\u{2000}' <= c <= '\u{200A}'
    ||| c == '\u{2028}'
    ||| c == '\u{2029}'
    ||| c == '\u{202F}'
    ||| c == '\u{205F}'
    ||| c == '\u{3000}'
}

/// Unicode noncharacters: the block U+FDD0..=U+FDEF and the last two code
/// points of every plane.
pub open spec fn noncharacter(c: char) -> bool {
    '\u{FDD0}' <= c <= '\u{FDEF}' || (c as u32) % 0x1_0000 >= 0xFFFE
}

/// Characters that may appear in a tag name.
pub open spec fn tag_name_char(c: char) -> bool {
    !ascii_whitespace(c) && c != '/' && c != '>'
}

/// Characters that may appear in an attribute name.
pub open spec fn attribute_name_char(c: char) -> bool {
    &&& !('\u{7F}' <= c <= '\u{9F}')
    &&& c != ' '
    &&& c != '"'
    &&& c != '\''
    &&& c != '/'
    &&& c != '>'
    &&& c != '='
    &&& !noncharacter(c)
}

/// Characters that may appear in an attribute value written without quotes.
pub open spec fn unquoted_value_char(c: char) -> bool {
    &&& !ascii_whitespace(c)
    &&& c != '"'
    &&& c != '\''
    &&& c != '<'
    &&& c != '>'
    &&& c != '`'
}

/// The lower-case form of an ASCII letter; every other character is itself.
pub open spec fn ascii_lower(c: char) -> char {
    if 'A' <= c <= 'Z' {
        ((c as u32) + 32) as char
    } else {
        c
    }
}

/// Whether `c` is ASCII whitespace.
#[verifier::when_used_as_spec(ascii_whitespace)]
pub fn is_ascii_whitespace(c: char) -> (b: bool)
    ensures
        b == ascii_whitespace(c),
{
    c == '\t' || c == '\n' || c == '\x0C' || c == '\r' || c == ' '
}

/// Whether `c` is whitespace.
#[verifier::when_used_as_spec(whitespace)]
pub fn is_whitespace(c: char) -> (b: bool)
    ensures
        b == whitespace(c),
{
    ('\u{9}' <= c && c <= '\u{D}') || c == ' ' || c == '\u{85}' || c == '\u{A0}' || c
        == '\u{1680}' || ('\u{2000}' <= c && c <= '\u{200A}') || c == '\u{2028}' || c
        == '\u{2029}' || c == '\u{202F}' || c == '\u{205F}' || c == '\u{3000}'
}

/// Whether `c` is a noncharacter.
#[verifier::when_used_as_spec(noncharacter)]
pub fn is_noncharacter(c: char) -> (b: bool)
    ensures
        b == noncharacter(c),
{
    let code: u32 = c as u32;
    ('\u{FDD0}' <= c && c <= '\u{FDEF}') || code % 0x1_0000 >= 0xFFFE
}

/// Whether two characters are equal once ASCII letters are lower-cased.
pub fn eq_ignore_ascii_case(a: char, b: char) -> (same: bool)
    ensures
        same == (ascii_lower(a) == ascii_lower(b)),
{
    if a == b {
        true
    } else if 'A' <= a && a <= 'Z' {
        'a' <= b && b <= 'z' && (a as u32) + 32 == (b as u32)
    } else if 'A' <= b && b <= 'Z' {
        'a' <= a && a <= 'z' && (b as u32) + 32 == (a as u32)
    } else {
        false
    }
}

/// A set of characters that a scanner can be asked to run over.
#[derive(Debug, Clone, Copy, PartialEq, Eq)]
pub enum CharClass {
    /// [`ascii_whitespace`].
    AsciiWhitespace,
    /// [`whitespace`].
    Whitespace,
    /// Everything but [`whitespace`].
    Visible,
    /// [`tag_name_char`].
    TagName,
    /// [`attribute_name_char`].
    AttributeName,
    /// [`unquoted_value_char`].
    UnquotedValue,
    /// Every character but the given one.
    Except(char),
}

impl CharClass {
    /// Membership of `c` in the class.
    pub open spec fn holds(self, c: char) -> bool {
        match self {
            CharClass::AsciiWhitespace => ascii_whitespace(c),
            CharClass::Whitespace => whitespace(c),
            CharClass::Visible => !whitespace(c),
            CharClass::TagName => tag_name_char(c),
            CharClass::AttributeName => attribute_name_char(c),
            CharClass::UnquotedValue => unquoted_value_char(c),
            CharClass::Except(stop) => c != stop,
        }
    }

    /// Whether `c` belongs to the class.
    pub fn contains(&self, c: char) -> (b: bool)
        ensures
            b == self.holds(c),
    {
        match self {
            CharClass::AsciiWhitespace => is_ascii_whitespace(c),
            CharClass::Whitespace => is_whitespace(c),
            CharClass::Visible => !is_whitespace(c),
            CharClass::TagName => !is_ascii_whitespace(c) && c != '/' && c != '>',
            CharClass::AttributeName => !(('\u{7F}' <= c && c <= '\u{9F}') || c == ' ' || c == '"'
                || c == '\'' || c == '/' || c == '>' || c == '=' || is_noncharacter(c)),
            CharClass::UnquotedValue => !(is_ascii_whitespace(c) || c == '"' || c == '\'' || c
                == '<' || c == '>' || c == '`'),
            CharClass::Except(stop) => c != *stop,
        }
    }
}

/// `after_char` on what an earlier step left.
pub open spec fn then_char(s: Option<Seq<char>>, c: char) -> Option<Seq<char>> {
    match s {
        Some(s) => after_char(s, c),
        None => None,
    }
}

/// `after_prefix` on what an earlier step left.
pub open spec fn then_prefix(s: Option<Seq<char>>, pattern: Seq<char>, fold: bool) -> Option<
    Seq<char>,
> {
    match s {
        Some(s) => after_prefix(s, pattern, fold),
        None => None,
    }
}

/// What follows a run of zero or more ASCII whitespace characters.
pub open spec fn after_spaces(s: Seq<char>) -> Seq<char> {
    s.skip(span(s, CharClass::AsciiWhitespace) as int)
}

/// What follows a run of one or more ASCII whitespace characters.
pub open spec fn after_space(s: Seq<char>) -> Option<Seq<char>> {
    if span(s, CharClass::AsciiWhitespace) > 0 {
        Some(after_spaces(s))
    } else {
        None
    }
}

/// `after_space` on what an earlier step left.
pub open spec fn then_space(s: Option<Seq<char>>) -> Option<Seq<char>> {
    match s {
        Some(s) => after_space(s),
        None => None,
    }
}

/// Takes a leading `c`, or fails.
pub fn expect_char<'a>(s: &'a str, c: char) -> (out: Result<&'a str, ParseError>)
    ensures
        match out {
            Ok(rest) => after_char(s@, c) == Some(rest@),
            Err(_) => after_char(s@, c) is None,
        },
{
    match strip_char(s, c) {
        Some(rest) => Ok(rest),
        None => Err(ParseError),
    }
}

/// Takes a leading `pattern`, exactly or up to ASCII case, or fails.
pub fn expect_prefix<'a>(s: &'a str, pattern: &str, fold: bool) -> (out: Result<
    &'a str,
    ParseError,
>)
    ensures
        match out {
            Ok(rest) => after_prefix(s@, pattern@, fold) == Some(rest@),
            Err(_) => after_prefix(s@, pattern@, fold) is None,
        },
{
    match strip_prefix(s, pattern, fold) {
        Some(rest) => Ok(rest),
        None => Err(ParseError),
    }
}

/// Takes zero or more ASCII whitespace characters.
pub fn skip_spaces<'a>(s: &'a str) -> (rest: &'a str)
    ensures
        rest@ == after_spaces(s@),
{
    skip_while(s, CharClass::AsciiWhitespace)
}

/// Takes one or more ASCII whitespace characters, or fails.
pub fn expect_space<'a>(s: &'a str) -> (out: Result<&'a str, ParseError>)
    ensures
        match out {
            Ok(rest) => after_space(s@) == Some(rest@),
            Err(_) => after_space(s@) is None,
        },
{
    match split_first(s) {
        Some((c, _)) => if is_ascii_whitespace(c) {
            Ok(skip_spaces(s))
        } else {
            Err(ParseError)
        },
        None => Err(ParseError),
    }
}

} // verus!
