//! The doctype declaration.

use crate::ast::util::{
    after_space, expect_char, expect_prefix, expect_space, then_char, then_prefix, then_space,
};
use crate::ast::ParseError;
use crate::ast::util::CharClass;
use crate::text::{after_char, after_prefix, lemma_span};
use vstd::prelude::*;

verus! {

/// A doctype declaration. Only whether it carried the legacy string is kept.
#[derive(Debug, PartialEq, Eq, Clone, Copy, Hash)]
pub struct Doctype {
    pub legacy: bool,
}

/// `about:legacy-compat` between two `quote` characters.
pub open spec fn quoted_legacy_compat(s: Seq<char>, quote: char) -> Option<Seq<char>> {
    then_char(then_prefix(after_char(s, quote), "about:legacy-compat"@, false), quote)
}

/// The legacy string at the start of `s`: `SYSTEM` in any case, whitespace,
/// and `about:legacy-compat` in double or in single quotes.
pub open spec fn legacy_string(s: Seq<char>) -> Option<Seq<char>> {
    match then_space(after_prefix(s, "SYSTEM"@, true)) {
        Some(quoted) => match quoted_legacy_compat(quoted, '"') {
            Some(rest) => Some(rest),
            None => quoted_legacy_compat(quoted, '\''),
        },
        None => None,
    }
}

/// A doctype at the start of `s`: what follows it, and the declaration.
pub open spec fn doctype(s: Seq<char>) -> Option<(Seq<char>, Doctype)> {
    let keyword = then_prefix(then_char(after_char(s, '<'), '!'), "DOCTYPE"@, true);
    match then_prefix(then_space(keyword), "html"@, true) {
        Some(named) => {
            let legacy = match after_space(named) {
                Some(spaced) => legacy_string(spaced),
                None => None,
            };
            match legacy {
                Some(closing) => match after_char(closing, '>') {
                    Some(rest) => Some((rest, Doctype { legacy: true })),
                    None => None,
                },
                None => match after_char(named, '>') {
                    Some(rest) => Some((rest, Doctype { legacy: false })),
                    None => None,
                },
            }
        },
        None => None,
    }
}

/// A doctype takes at least its opening `<`.
pub proof fn lemma_doctype_consumes(s: Seq<char>)
    ensures
        doctype(s) matches Some((rest, _)) ==> rest.len() < s.len(),
{
    let keyword = then_prefix(then_char(after_char(s, '<'), '!'), "DOCTYPE"@, true);
    if let Some(spaced) = then_space(keyword) {
        lemma_span(keyword->0, CharClass::AsciiWhitespace);
        if let Some(named) = after_prefix(spaced, "html"@, true) {
            lemma_span(named, CharClass::AsciiWhitespace);
            if let Some(system) = after_space(named) {
                if let Some(quoting) = then_space(after_prefix(system, "SYSTEM"@, true)) {
                    lemma_span(after_prefix(system, "SYSTEM"@, true)->0, CharClass::AsciiWhitespace);
                }
            }
        }
    }
}

/// Parses `about:legacy-compat` between two `quote` characters.
fn parse_quoted_legacy_compat<'a>(input: &'a str, quote: char) -> (out: Result<
    &'a str,
    ParseError,
>)
    ensures
        match out {
            Ok(rest) => quoted_legacy_compat(input@, quote) == Some(rest@),
            Err(_) => quoted_legacy_compat(input@, quote) is None,
        },
{
    let opened = expect_char(input, quote)?;
    let named = expect_prefix(opened, "about:legacy-compat", false)?;
    expect_char(named, quote)
}

/// Parses the legacy string: `SYSTEM` in any case, ASCII whitespace, and
/// `about:legacy-compat` in double or in single quotes.
pub fn parse_legacy_string<'a>(input: &'a str) -> (out: Result<(&'a str, ()), ParseError>)
    ensures
        match out {
            Ok((rest, _)) => legacy_string(input@) == Some(rest@),
            Err(_) => legacy_string(input@) is None,
        },
{
    let keyword = expect_prefix(input, "SYSTEM", true)?;
    let quoted = expect_space(keyword)?;
    match parse_quoted_legacy_compat(quoted, '"') {
        Ok(rest) => Ok((rest, ())),
        Err(_) => match parse_quoted_legacy_compat(quoted, '\'') {
            Ok(rest) => Ok((rest, ())),
            Err(e) => Err(e),
        },
    }
}

impl Doctype {
    /// Parses `<!DOCTYPE` and `html`, both in any case and with ASCII
    /// whitespace between them, optionally whitespace and the legacy string,
    /// and `>`.
    pub fn parse<'a>(input: &'a str) -> (out: Result<(&'a str, Doctype), ParseError>)
        ensures
            match out {
                Ok((rest, found)) => doctype(input@) == Some((rest@, found)),
                Err(_) => doctype(input@) is None,
            },
    {
        let opened = expect_char(input, '<')?;
        let bang = expect_char(opened, '!')?;
        let keyword = expect_prefix(bang, "DOCTYPE", true)?;
        let spaced = expect_space(keyword)?;
        let named = expect_prefix(spaced, "html", true)?;
        let legacy = match expect_space(named) {
            Ok(spaced) => match parse_legacy_string(spaced) {
                Ok((closing, _)) => Some(closing),
                Err(_) => None,
            },
            Err(_) => None,
        };
        match legacy {
            Some(closing) => {
                let rest = expect_char(closing, '>')?;
                Ok((rest, Doctype { legacy: true }))
            },
            None => {
                let rest = expect_char(named, '>')?;
                Ok((rest, Doctype { legacy: false }))
            },
        }
    }
}

} // verus!
