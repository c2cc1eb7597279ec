//! Scanning primitives on string slices, specified over their characters.

use crate::ast::util::{ascii_lower, eq_ignore_ascii_case, is_whitespace, whitespace, CharClass};
use std::str::Chars;
use vstd::prelude::*;
use vstd::std_specs::iter::IteratorSpec;
use vstd::utf8::encode_utf8;

verus! {

/// Number of leading characters of `s` that belong to `class`.
pub open spec fn span(s: Seq<char>, class: CharClass) -> nat
    decreases s.len(),
{
    if s.len() > 0 && class.holds(s[0]) {
        1 + span(s.drop_first(), class)
    } else {
        0
    }
}

/// `span` stops at the first character outside the class, and not before.
pub proof fn lemma_span(s: Seq<char>, class: CharClass)
    ensures
        span(s, class) <= s.len(),
        forall|i: int| 0 <= i < span(s, class) ==> class.holds(#[trigger] s[i]),
        span(s, class) < s.len() ==> !class.holds(s[span(s, class) as int]),
    decreases s.len(),
{
    if s.len() > 0 && class.holds(s[0]) {
        let tail = s.drop_first();
        lemma_span(tail, class);
        assert forall|i: int| 0 <= i < span(s, class) implies class.holds(#[trigger] s[i]) by {
            if i > 0 {
                assert(s[i] == tail[i - 1]);
            }
        }
        if span(s, class) < s.len() {
            assert(s[span(s, class) as int] == tail[span(tail, class) as int]);
        }
    }
}

/// Any position with the two properties of `lemma_span` is the span.
pub proof fn lemma_span_is(s: Seq<char>, class: CharClass, k: nat)
    requires
        k <= s.len(),
        forall|i: int| 0 <= i < k ==> class.holds(#[trigger] s[i]),
        k < s.len() ==> !class.holds(s[k as int]),
    ensures
        span(s, class) == k,
    decreases s.len(),
{
    if k > 0 {
        let tail = s.drop_first();
        assert(class.holds(s[0]));
        assert forall|i: int| 0 <= i < k - 1 implies class.holds(#[trigger] tail[i]) by {
            assert(tail[i] == s[i + 1]);
        }
        if k < s.len() {
            assert(tail[k - 1] == s[k as int]);
        }
        lemma_span_is(tail, class, (k - 1) as nat);
    }
}

/// Whether `s` starts with all of `front`.
pub open spec fn begins(s: Seq<char>, front: Seq<char>) -> bool {
    front.len() <= s.len() && s.take(front.len() as int) == front
}

/// What is left of `s` after some of `front` begins with what is left of
/// `front`.
pub proof fn lemma_begins_skip(s: Seq<char>, front: Seq<char>, n: int)
    requires
        begins(s, front),
        0 <= n <= front.len(),
    ensures
        begins(s.skip(n), front.skip(n)),
        forall|i: int| 0 <= i < front.len() ==> s[i] == front[i],
{
    assert forall|i: int| 0 <= i < front.len() implies s[i] == front[i] by {
        assert(s.take(front.len() as int)[i] == front[i]);
    }
    assert(s.skip(n).take(front.skip(n).len() as int) == front.skip(n));
}

/// A run that ends inside `front` ends at the same place in every text that
/// begins with `front`.
pub proof fn lemma_span_of_front(s: Seq<char>, front: Seq<char>, class: CharClass)
    requires
        begins(s, front),
        span(front, class) < front.len(),
    ensures
        span(s, class) == span(front, class),
{
    lemma_span(front, class);
    lemma_begins_skip(s, front, 0);
    lemma_span_is(s, class, span(front, class));
}

/// Every character takes at least one byte in UTF-8.
pub proof fn lemma_encoding_is_no_shorter(chars: Seq<char>)
    ensures
        chars.len() <= encode_utf8(chars).len(),
    decreases chars.len(),
{
    if chars.len() > 0 {
        lemma_encoding_is_no_shorter(chars.drop_first());
    }
}

/// Establishes that character positions of `s` fit in a `usize`.
pub fn note_length_fits(s: &str)
    ensures
        s@.len() <= usize::MAX,
{
    let bytes = s.as_bytes();
    let _n: usize = bytes.len();
    proof {
        lemma_encoding_is_no_shorter(s@);
    }
}

/// `Chars::as_str` of the standard library: the part of the string that the
/// iterator has not yet yielded.
#[verifier::external_body]
fn unread<'a>(chars: &Chars<'a>) -> (rest: &'a str)
    ensures
        rest@ == chars.remaining(),
{
    chars.as_str()
}

/// The first character of `s` and what follows it.
pub fn split_first<'a>(s: &'a str) -> (out: Option<(char, &'a str)>)
    ensures
        match out {
            Some((c, rest)) => s@.len() > 0 && c == s@[0] && rest@ == s@.drop_first(),
            None => s@.len() == 0,
        },
{
    let mut chars = s.chars();
    match chars.next() {
        Some(c) => Some((c, unread(&chars))),
        None => None,
    }
}

/// Runs over the longest prefix of `s` whose characters are in `class`: the
/// length of that prefix, and what follows it.
pub fn scan_while<'a>(s: &'a str, class: CharClass) -> (out: (usize, &'a str))
    ensures
        out.0 == span(s@, class),
        out.0 <= s@.len(),
        out.1@ == s@.skip(span(s@, class) as int),
{
    note_length_fits(s);
    let mut rest = s;
    let mut taken: usize = 0;
    loop
        invariant
            taken <= s@.len() <= usize::MAX,
            rest@ == s@.skip(taken as int),
            span(s@, class) == taken + span(rest@, class),
        ensures
            span(rest@, class) == 0,
        decreases rest@.len(),
    {
        match split_first(rest) {
            Some((c, tail)) => {
                if class.contains(c) {
                    assert(s@.skip(taken as int).drop_first() == s@.skip(taken + 1));
                    rest = tail;
                    taken += 1;
                } else {
                    break ;
                }
            },
            None => {
                break ;
            },
        }
    }
    (taken, rest)
}

/// Splits `s` after its longest prefix of characters in `class`.
pub fn take_while<'a>(s: &'a str, class: CharClass) -> (out: (&'a str, &'a str))
    ensures
        out.0@ == s@.take(span(s@, class) as int),
        out.1@ == s@.skip(span(s@, class) as int),
{
    let (taken, rest) = scan_while(s, class);
    (s.substring_char(0, taken), rest)
}

/// The rest of `s` after its longest prefix of characters in `class`.
pub fn skip_while<'a>(s: &'a str, class: CharClass) -> (rest: &'a str)
    ensures
        rest@ == s@.skip(span(s@, class) as int),
{
    scan_while(s, class).1
}

/// What follows a leading `c`, if `s` starts with one.
pub open spec fn after_char(s: Seq<char>, c: char) -> Option<Seq<char>> {
    if s.len() > 0 && s[0] == c {
        Some(s.drop_first())
    } else {
        None
    }
}

/// Takes a leading `c`, if there is one.
pub fn strip_char<'a>(s: &'a str, c: char) -> (out: Option<&'a str>)
    ensures
        match out {
            Some(rest) => after_char(s@, c) == Some(rest@),
            None => after_char(s@, c) is None,
        },
{
    match split_first(s) {
        Some((first, rest)) => if first == c {
            Some(rest)
        } else {
            None
        },
        None => None,
    }
}

/// Whether two characters count as equal: exactly, or up to ASCII case.
pub open spec fn same_char(a: char, b: char, fold: bool) -> bool {
    if fold {
        ascii_lower(a) == ascii_lower(b)
    } else {
        a == b
    }
}

/// Whether `s` starts with `pattern`, exactly or up to ASCII case.
pub open spec fn starts_with(s: Seq<char>, pattern: Seq<char>, fold: bool) -> bool {
    &&& pattern.len() <= s.len()
    &&& forall|i: int| 0 <= i < pattern.len() ==> same_char(s[i], #[trigger] pattern[i], fold)
}

/// What follows a leading `pattern`, if `s` starts with one.
pub open spec fn after_prefix(s: Seq<char>, pattern: Seq<char>, fold: bool) -> Option<Seq<char>> {
    if starts_with(s, pattern, fold) {
        Some(s.skip(pattern.len() as int))
    } else {
        None
    }
}

/// Takes a leading `pattern`, exactly or up to ASCII case, if there is one.
pub fn strip_prefix<'a>(s: &'a str, pattern: &str, fold: bool) -> (out: Option<&'a str>)
    ensures
        match out {
            Some(rest) => after_prefix(s@, pattern@, fold) == Some(rest@),
            None => after_prefix(s@, pattern@, fold) is None,
        },
{
    let mut rest = s;
    let mut wanted = pattern;
    let ghost mut matched: nat = 0;
    loop
        invariant
            matched <= s@.len(),
            matched <= pattern@.len(),
            rest@ == s@.skip(matched as int),
            wanted@ == pattern@.skip(matched as int),
            forall|i: int| 0 <= i < matched ==> same_char(s@[i], #[trigger] pattern@[i], fold),
        decreases wanted@.len(),
    {
        match split_first(wanted) {
            None => {
                return Some(rest);
            },
            Some((expected, wanted_tail)) => {
                match split_first(rest) {
                    None => {
                        return None;
                    },
                    Some((found, rest_tail)) => {
                        let same = if fold {
                            eq_ignore_ascii_case(found, expected)
                        } else {
                            found == expected
                        };
                        if !same {
                            assert(!same_char(s@[matched as int], pattern@[matched as int], fold));
                            return None;
                        }
                        assert(s@.skip(matched as int).drop_first() == s@.skip(matched as int + 1));
                        assert(pattern@.skip(matched as int).drop_first() == pattern@.skip(
                            matched as int + 1,
                        ));
                        rest = rest_tail;
                        wanted = wanted_tail;
                        proof {
                            matched = matched + 1;
                        }
                    },
                }
            },
        }
    }
}

/// Equality of two strings, character by character.
pub fn eq(a: &str, b: &str) -> (same: bool)
    ensures
        same == (a@ == b@),
{
    match strip_prefix(a, b, false) {
        Some(rest) => {
            let same = rest.is_empty();
            assert(same ==> a@ =~= b@);
            same
        },
        None => false,
    }
}

/// Equality of two strings up to the case of ASCII letters.
pub open spec fn same_ignoring_ascii_case(a: Seq<char>, b: Seq<char>) -> bool {
    a.len() == b.len() && starts_with(a, b, true)
}

/// Equality of two strings up to the case of ASCII letters, character by
/// character.
pub fn eq_ignoring_ascii_case(a: &str, b: &str) -> (same: bool)
    ensures
        same == same_ignoring_ascii_case(a@, b@),
{
    match strip_prefix(a, b, true) {
        Some(rest) => rest.is_empty(),
        None => false,
    }
}

/// Position of the first occurrence of `pattern` in `s`.
pub open spec fn find(s: Seq<char>, pattern: Seq<char>) -> Option<nat>
    decreases s.len(),
{
    if starts_with(s, pattern, false) {
        Some(0)
    } else if s.len() == 0 {
        None
    } else {
        match find(s.drop_first(), pattern) {
            Some(i) => Some(i + 1),
            None => None,
        }
    }
}

/// `find` returns the first position at which the pattern starts.
pub proof fn lemma_find(s: Seq<char>, pattern: Seq<char>)
    ensures
        match find(s, pattern) {
            Some(i) => {
                &&& i + pattern.len() <= s.len()
                &&& starts_with(s.skip(i as int), pattern, false)
                &&& forall|j: int| 0 <= j < i ==> !starts_with(#[trigger] s.skip(j), pattern, false)
            },
            None => forall|j: int| 0 <= j <= s.len() ==> !starts_with(
                #[trigger] s.skip(j),
                pattern,
                false,
            ),
        },
    decreases s.len(),
{
    assert(s.skip(0) == s);
    if starts_with(s, pattern, false) {
    } else if s.len() == 0 {
        assert forall|j: int| 0 <= j <= s.len() implies !starts_with(
            #[trigger] s.skip(j),
            pattern,
            false,
        ) by {
            assert(s.skip(j) == s);
        }
    } else {
        let tail = s.drop_first();
        lemma_find(tail, pattern);
        assert forall|j: int| 1 <= j <= s.len() implies #[trigger] s.skip(j) == tail.skip(j - 1) by {
            assert(s.skip(j) =~= tail.skip(j - 1));
        }
        match find(tail, pattern) {
            Some(i) => {
                assert(s.skip(i as int + 1) == tail.skip(i as int));
                assert forall|j: int| 0 <= j < i + 1 implies !starts_with(
                    #[trigger] s.skip(j),
                    pattern,
                    false,
                ) by {
                    if j > 0 {
                        assert(s.skip(j) == tail.skip(j - 1));
                    }
                }
            },
            None => {
                assert forall|j: int| 0 <= j <= s.len() implies !starts_with(
                    #[trigger] s.skip(j),
                    pattern,
                    false,
                ) by {
                    if j > 0 {
                        assert(s.skip(j) == tail.skip(j - 1));
                    }
                }
            },
        }
    }
}

/// Splits `s` around the first occurrence of `pattern`.
pub fn split_once<'a>(s: &'a str, pattern: &str) -> (out: Option<(&'a str, &'a str)>)
    ensures
        match out {
            Some((before, after)) => find(s@, pattern@) matches Some(i) && before@ == s@.take(
                i as int,
            ) && after@ == s@.skip((i + pattern@.len()) as int),
            None => find(s@, pattern@) is None,
        },
{
    note_length_fits(s);
    let mut rest = s;
    let mut passed: usize = 0;
    loop
        invariant
            passed <= s@.len() <= usize::MAX,
            rest@ == s@.skip(passed as int),
            match find(rest@, pattern@) {
                Some(i) => find(s@, pattern@) == Some((passed + i) as nat),
                None => find(s@, pattern@) is None,
            },
        decreases rest@.len(),
    {
        match strip_prefix(rest, pattern, false) {
            Some(after) => {
                assert(s@.skip(passed as int).skip(pattern@.len() as int) == s@.skip(
                    passed + pattern@.len(),
                ));
                return Some((s.substring_char(0, passed), after));
            },
            None => {},
        }
        match split_first(rest) {
            Some((_, tail)) => {
                assert(s@.skip(passed as int).drop_first() == s@.skip(passed + 1));
                rest = tail;
                passed += 1;
            },
            None => {
                return None;
            },
        }
    }
}

/// Number of leading characters of `s` that belong to `class`.
pub fn count_while(s: &str, class: CharClass) -> (count: usize)
    ensures
        count == span(s@, class),
{
    scan_while(s, class).0
}

/// A sequence contains `c` exactly when the run of other characters at its
/// start ends before the sequence does.
pub proof fn lemma_contains(s: Seq<char>, c: char)
    ensures
        s.contains(c) <==> span(s, CharClass::Except(c)) < s.len(),
{
    lemma_span(s, CharClass::Except(c));
    if s.contains(c) {
        let i = choose|i: int| 0 <= i < s.len() && s[i] == c;
        if span(s, CharClass::Except(c)) >= s.len() {
            assert(CharClass::Except(c).holds(s[i]));
        }
    }
}

/// Whether `c` occurs in `s`.
pub fn contains_char(s: &str, c: char) -> (found: bool)
    ensures
        found == s@.contains(c),
{
    let rest = skip_while(s, CharClass::Except(c));
    proof {
        lemma_contains(s@, c);
        lemma_span(s@, CharClass::Except(c));
    }
    !rest.is_empty()
}

/// Length of `s` without its trailing whitespace.
pub open spec fn trimmed_len(s: Seq<char>) -> nat
    decreases s.len(),
{
    if s.len() > 0 && whitespace(s.last()) {
        trimmed_len(s.drop_last())
    } else {
        s.len()
    }
}

/// Leading whitespace is removed once and for all.
pub proof fn lemma_trim_start(s: Seq<char>)
    ensures
        trim_start(s).len() <= s.len(),
        trim_start(trim_start(s)) == trim_start(s),
{
    lemma_span(s, CharClass::Whitespace);
    let rest = trim_start(s);
    if rest.len() > 0 {
        assert(rest[0] == s[span(s, CharClass::Whitespace) as int]);
    }
    assert(rest.skip(0) == rest);
}

/// `s` without its leading whitespace.
pub open spec fn trim_start(s: Seq<char>) -> Seq<char> {
    s.skip(span(s, CharClass::Whitespace) as int)
}

/// `s` without its trailing whitespace.
pub open spec fn trim_end(s: Seq<char>) -> Seq<char> {
    s.take(trimmed_len(s) as int)
}

/// `s` without its leading and trailing whitespace.
pub open spec fn trim(s: Seq<char>) -> Seq<char> {
    trim_end(trim_start(s))
}

/// `trimmed_len` ends behind the last character that is no whitespace.
pub proof fn lemma_trimmed_len(s: Seq<char>)
    ensures
        trimmed_len(s) <= s.len(),
        trimmed_len(s) > 0 ==> !whitespace(s[trimmed_len(s) - 1]),
        forall|i: int| trimmed_len(s) <= i < s.len() ==> whitespace(#[trigger] s[i]),
    decreases s.len(),
{
    if s.len() > 0 && whitespace(s.last()) {
        let front = s.drop_last();
        lemma_trimmed_len(front);
        assert forall|i: int| trimmed_len(s) <= i < s.len() implies whitespace(#[trigger] s[i]) by {
            if i < front.len() {
                assert(s[i] == front[i]);
            }
        }
        if trimmed_len(s) > 0 {
            assert(s[trimmed_len(s) - 1] == front[trimmed_len(front) - 1]);
        }
    }
}

/// `s` without its leading whitespace.
pub fn trim_start_of<'a>(s: &'a str) -> (out: &'a str)
    ensures
        out@ == trim_start(s@),
{
    skip_while(s, CharClass::Whitespace)
}

/// `s` without its trailing whitespace.
pub fn trim_end_of<'a>(s: &'a str) -> (out: &'a str)
    ensures
        out@ == trim_end(s@),
{
    note_length_fits(s);
    let mut rest = s;
    let mut seen: usize = 0;
    let mut keep: usize = 0;
    loop
        invariant
            keep <= seen <= s@.len() <= usize::MAX,
            rest@ == s@.skip(seen as int),
            keep == trimmed_len(s@.take(seen as int)),
        ensures
            seen == s@.len(),
            keep == trimmed_len(s@.take(seen as int)),
            keep <= seen,
        decreases rest@.len(),
    {
        match split_first(rest) {
            Some((c, tail)) => {
                assert(s@.skip(seen as int).drop_first() == s@.skip(seen + 1));
                assert(s@.take(seen + 1).drop_last() == s@.take(seen as int));
                assert(s@.take(seen + 1).last() == c);
                rest = tail;
                seen += 1;
                if !is_whitespace(c) {
                    keep = seen;
                }
            },
            None => {
                break ;
            },
        }
    }
    assert(s@.take(seen as int) == s@);
    s.substring_char(0, keep)
}

/// `s` without its leading and trailing whitespace.
pub fn trim_of<'a>(s: &'a str) -> (out: &'a str)
    ensures
        out@ == trim(s@),
{
    trim_end_of(trim_start_of(s))
}

/// Position of the last `c` in `s`, or -1 when there is none.
pub open spec fn last_position(s: Seq<char>, c: char) -> int
    decreases s.len(),
{
    if s.len() == 0 {
        -1
    } else if s.last() == c {
        s.len() - 1
    } else {
        last_position(s.drop_last(), c)
    }
}

/// `last_position` is the position of a `c` behind which there is no other.
pub proof fn lemma_last_position(s: Seq<char>, c: char)
    ensures
        -1 <= last_position(s, c) < s.len(),
        last_position(s, c) >= 0 ==> s[last_position(s, c)] == c,
        forall|i: int| last_position(s, c) < i < s.len() ==> #[trigger] s[i] != c,
    decreases s.len(),
{
    if s.len() > 0 && s.last() != c {
        let front = s.drop_last();
        lemma_last_position(front, c);
        assert forall|i: int| last_position(s, c) < i < s.len() implies #[trigger] s[i] != c by {
            if i < front.len() {
                assert(s[i] == front[i]);
            }
        }
        if last_position(s, c) >= 0 {
            assert(s[last_position(s, c)] == front[last_position(front, c)]);
        }
    }
}

/// Position of the last `c` in `s`, if there is one.
pub fn last_index_of(s: &str, c: char) -> (out: Option<usize>)
    ensures
        match out {
            Some(i) => i == last_position(s@, c),
            None => last_position(s@, c) == -1,
        },
{
    note_length_fits(s);
    let mut rest = s;
    let mut seen: usize = 0;
    let mut last: Option<usize> = None;
    loop
        invariant
            seen <= s@.len() <= usize::MAX,
            rest@ == s@.skip(seen as int),
            match last {
                Some(i) => i == last_position(s@.take(seen as int), c),
                None => last_position(s@.take(seen as int), c) == -1,
            },
        ensures
            seen == s@.len(),
            match last {
                Some(i) => i == last_position(s@.take(seen as int), c),
                None => last_position(s@.take(seen as int), c) == -1,
            },
        decreases rest@.len(),
    {
        match split_first(rest) {
            Some((found, tail)) => {
                assert(s@.skip(seen as int).drop_first() == s@.skip(seen + 1));
                assert(s@.take(seen + 1).drop_last() == s@.take(seen as int));
                assert(s@.take(seen + 1).last() == found);
                if found == c {
                    last = Some(seen);
                }
                rest = tail;
                seen += 1;
            },
            None => {
                break ;
            },
        }
    }
    assert(s@.take(seen as int) == s@);
    last
}

/// A line without the carriage return in front of its line feed.
pub open spec fn without_carriage_return(line: Seq<char>) -> Seq<char> {
    if line.len() > 0 && line.last() == '\r' {
        line.drop_last()
    } else {
        line
    }
}

/// The lines of `s`. A line ends with a line feed, or with a carriage return
/// and a line feed, neither of which belongs to it; the last line may end
/// with the text instead. The empty text has no line.
pub open spec fn lines(s: Seq<char>) -> Seq<Seq<char>>
    decreases s.len(),
{
    let len = span(s, CharClass::Except('\n'));
    if s.len() == 0 {
        Seq::empty()
    } else if len >= s.len() {
        seq![s]
    } else {
        seq![without_carriage_return(s.take(len as int))] + lines(s.skip(len as int + 1))
    }
}

/// The words of `s`: its longest runs of characters that are no whitespace.
pub open spec fn words(s: Seq<char>) -> Seq<Seq<char>>
    decreases s.len(),
{
    let start = trim_start(s);
    let len = span(start, CharClass::Visible);
    if len == 0 {
        Seq::empty()
    } else {
        proof {
            lemma_span(s, CharClass::Whitespace);
            lemma_span(start, CharClass::Visible);
        }
        seq![start.take(len as int)] + words(start.skip(len as int))
    }
}

/// What a list of string slices stands for.
pub open spec fn slices_view(slices: Seq<&str>) -> Seq<Seq<char>> {
    slices.map_values(|slice: &str| slice@)
}

/// Splits `s` into its lines.
pub fn split_lines<'a>(s: &'a str) -> (out: Vec<&'a str>)
    ensures
        slices_view(out@) == lines(s@),
{
    let mut rest = s;
    let mut found: Vec<&'a str> = Vec::new();
    assert(slices_view(found@) + lines(rest@) == lines(rest@));
    loop
        invariant
            lines(s@) == slices_view(found@) + lines(rest@),
        decreases rest@.len(),
    {
        if rest.is_empty() {
            assert(slices_view(found@) + Seq::empty() == slices_view(found@));
            return found;
        }
        let (line, at) = take_while(rest, CharClass::Except('\n'));
        proof {
            lemma_span(rest@, CharClass::Except('\n'));
        }
        match split_first(at) {
            Some((_, tail)) => {
                let kept = match strip_suffix_char(line, '\r') {
                    Some(kept) => kept,
                    None => line,
                };
                proof {
                    let len = span(rest@, CharClass::Except('\n')) as int;
                    assert(rest@.skip(len).drop_first() == rest@.skip(len + 1));
                    assert(slices_view(found@.push(kept)) == slices_view(found@).push(kept@));
                    assert(slices_view(found@).push(kept@) + lines(tail@) == slices_view(found@)
                        + (seq![kept@] + lines(tail@)));
                }
                found.push(kept);
                rest = tail;
            },
            None => {
                proof {
                    assert(rest@.take(rest@.len() as int) == rest@);
                    assert(slices_view(found@.push(line)) == slices_view(found@).push(line@));
                    assert(slices_view(found@).push(line@) == slices_view(found@) + seq![rest@]);
                }
                found.push(line);
                return found;
            },
        }
    }
}

/// `s` without a final `c`, if it ends with one.
pub fn strip_suffix_char<'a>(s: &'a str, c: char) -> (out: Option<&'a str>)
    ensures
        match out {
            Some(front) => s@.len() > 0 && s@.last() == c && front@ == s@.drop_last(),
            None => s@.len() == 0 || s@.last() != c,
        },
{
    note_length_fits(s);
    let mut rest = s;
    let mut seen: usize = 0;
    let mut last: Option<char> = None;
    loop
        invariant
            seen <= s@.len() <= usize::MAX,
            rest@ == s@.skip(seen as int),
            match last {
                Some(c) => seen > 0 && c == s@[seen - 1],
                None => seen == 0,
            },
        ensures
            seen == s@.len(),
            match last {
                Some(c) => seen > 0 && c == s@[seen - 1],
                None => seen == 0,
            },
        decreases rest@.len(),
    {
        match split_first(rest) {
            Some((found, tail)) => {
                assert(s@.skip(seen as int).drop_first() == s@.skip(seen + 1));
                last = Some(found);
                rest = tail;
                seen += 1;
            },
            None => {
                break ;
            },
        }
    }
    match last {
        Some(found) => if found == c {
            Some(s.substring_char(0, seen - 1))
        } else {
            None
        },
        None => None,
    }
}

/// Splits `s` into its words.
pub fn split_words<'a>(s: &'a str) -> (out: Vec<&'a str>)
    ensures
        slices_view(out@) == words(s@),
{
    let mut rest = s;
    let mut found: Vec<&'a str> = Vec::new();
    assert(slices_view(found@) + words(rest@) == words(rest@));
    loop
        invariant
            words(s@) == slices_view(found@) + words(rest@),
        decreases rest@.len(),
    {
        let start = trim_start_of(rest);
        let (word, after) = take_while(start, CharClass::Visible);
        proof {
            lemma_span(rest@, CharClass::Whitespace);
            lemma_span(start@, CharClass::Visible);
        }
        if word.is_empty() {
            assert(slices_view(found@) + Seq::empty() == slices_view(found@));
            return found;
        }
        proof {
            assert(slices_view(found@.push(word)) == slices_view(found@).push(word@));
            assert(slices_view(found@).push(word@) + words(after@) == slices_view(found@) + (
                seq![word@] + words(after@)));
        }
        found.push(word);
        rest = after;
    }
}

} // verus!
