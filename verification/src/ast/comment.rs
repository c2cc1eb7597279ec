//! Comments: `<!--`, a body, `-->`.

use crate::ast::util::CharClass;
use crate::ast::{comment_ok, ParseError};
use crate::ast::guarantees::lemma_comment_body_holds_no_delimiter;
use crate::text::{
    after_prefix, contains_char, count_while, find, last_index_of, last_position, lemma_find,
    lemma_last_position, lemma_span, span, split_once, strip_prefix, trim, trim_of,
};
use vstd::prelude::*;

verus! {

/// A comment, held as its normalized body: the text between `<!--` and `-->`
/// with the surrounding whitespace removed when it is a single line, and the
/// lines strictly between the first and the last line break otherwise.
#[derive(Debug, PartialEq, Eq, Clone, Copy, Hash)]
pub struct Comment<'a>(pub &'a str);

impl View for Comment<'_> {
    type V = Seq<char>;

    open spec fn view(&self) -> Seq<char> {
        self.0@
    }
}

/// The body kept for a comment whose delimiters enclose `raw`. Where `raw`
/// without the whitespace around it holds no line break, that is the body.
/// Otherwise the body is what stands between the first and the last line
/// break of `raw`, as it is; that is nothing where `raw` holds one line break
/// only.
pub open spec fn comment_body(raw: Seq<char>) -> Seq<char> {
    if !trim(raw).contains('\n') {
        trim(raw)
    } else {
        let first = span(raw, CharClass::Except('\n')) as int;
        let last = last_position(raw, '\n');
        if first < last {
            raw.subrange(first + 1, last)
        } else {
            Seq::empty()
        }
    }
}

/// A comment at the start of `s`: what follows it, and its body.
pub open spec fn comment(s: Seq<char>) -> Option<(Seq<char>, Seq<char>)> {
    match after_prefix(s, "<!--"@, false) {
        Some(inner) => match find(inner, "-->"@) {
            Some(end) => Some(
                (inner.skip((end + "-->"@.len()) as int), comment_body(inner.take(end as int))),
            ),
            None => None,
        },
        None => None,
    }
}

/// A comment takes at least its two delimiters.
pub proof fn lemma_comment_consumes(s: Seq<char>)
    ensures
        comment(s) matches Some((rest, _)) ==> rest.len() < s.len(),
{
    reveal_strlit("<!--");
    if let Some(inner) = after_prefix(s, "<!--"@, false) {
        lemma_find(inner, "-->"@);
    }
}

/// Normalizes the text between the delimiters of a comment.
pub fn normalize<'a>(raw: &'a str) -> (body: &'a str)
    ensures
        body@ == comment_body(raw@),
{
    let inner = trim_of(raw);
    if !contains_char(inner, '\n') {
        inner
    } else {
        let first = count_while(raw, CharClass::Except('\n'));
        proof {
            lemma_span(raw@, CharClass::Except('\n'));
            lemma_last_position(raw@, '\n');
        }
        match last_index_of(raw, '\n') {
            Some(last) => {
                if first < last {
                    raw.substring_char(first + 1, last)
                } else {
                    raw.substring_char(0, 0)
                }
            },
            None => raw.substring_char(0, 0),
        }
    }
}

impl<'a> Comment<'a> {
    /// Parses `<!--`, everything up to the first `-->`, and that `-->`.
    pub fn parse(input: &'a str) -> (out: Result<(&'a str, Comment<'a>), ParseError>)
        ensures
            match out {
                Ok((rest, found)) => comment(input@) == Some((rest@, found@)) && comment_ok(
                    found@,
                ),
                Err(_) => comment(input@) is None,
            },
    {
        proof {
            lemma_comment_body_holds_no_delimiter(input@);
        }
        let inner = match strip_prefix(input, "<!--", false) {
            Some(inner) => inner,
            None => {
                return Err(ParseError);
            },
        };
        match split_once(inner, "-->") {
            Some((raw, rest)) => Ok((rest, Comment(normalize(raw)))),
            None => Err(ParseError),
        }
    }
}

} // verus!
