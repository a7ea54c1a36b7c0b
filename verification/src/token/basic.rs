//! Visible characters and white space.

use crate::class::{is_vchar, is_wsp, vchar_table};
use crate::failure::{
    advances, agrees, no_match, ErrorKind, Outcome, ParseError, Severity,
};
use crate::leaf::{one_of, tag};
use crate::text::{lemma_skip_is_suffix, lemma_starts_with_char};
use vstd::prelude::*;

verus! {

/// One visible character at the front of `s`.
pub open spec fn spec_vchar(s: Seq<char>) -> Outcome<Seq<char>> {
    if s.len() > 0 && is_vchar(s[0]) {
        Outcome::Match { value: s.take(1), rest: s.skip(1) }
    } else {
        Outcome::Fail(no_match(s, ErrorKind::OneOf))
    }
}

/// One space or tab at the front of `s`.
pub open spec fn spec_wsp(s: Seq<char>) -> Outcome<Seq<char>> {
    if s.len() > 0 && is_wsp(s[0]) {
        Outcome::Match { value: s.take(1), rest: s.skip(1) }
    } else {
        Outcome::Fail(no_match(s, ErrorKind::Tag))
    }
}

/// Recognises one character of `table` and hands it back as a slice of the input.
pub(crate) fn one_char_of<'a>(input: &'a str, table: &str) -> (res: Result<
    (&'a str, &'a str),
    ParseError<'a>,
>)
    ensures
        match res {
            Ok((rest, found)) => input@.len() > 0 && table@.contains(input@[0]) && found@
                == input@.take(1) && rest@ == input@.skip(1),
            Err(e) => (input@.len() == 0 || !table@.contains(input@[0])) && e@ == no_match(
                input@,
                ErrorKind::OneOf,
            ),
        },
{
    match one_of(input, table) {
        Ok((rest, _)) => Ok((rest, input.substring_char(0, 1))),
        Err(_) => Err(ParseError { severity: Severity::NoMatch, input, code: ErrorKind::OneOf }),
    }
}

/// Recognises one visible character (`!` to `~`). Anything else at the front of the
/// input, and the end of the input, is no match.
pub fn vchar<'a>(input: &'a str) -> (res: Result<(&'a str, &'a str), ParseError<'a>>)
    ensures
        agrees(res, spec_vchar(input@)),
        advances(res, input@),
{
    proof {
        assert(input@.skip(0) =~= input@);
        if input@.len() > 0 {
            lemma_skip_is_suffix(input@, 1);
        }
    }
    one_char_of(input, vchar_table())
}

/// Recognises one space or one horizontal tab.
pub fn wsp<'a>(input: &'a str) -> (res: Result<(&'a str, &'a str), ParseError<'a>>)
    ensures
        agrees(res, spec_wsp(input@)),
        advances(res, input@),
{
    proof {
        assert(input@.skip(0) =~= input@);
        if input@.len() > 0 {
            lemma_skip_is_suffix(input@, 1);
        }
        reveal_strlit(" ");
        reveal_strlit("\t");
        lemma_starts_with_char(input@, " "@);
        lemma_starts_with_char(input@, "\t"@);
    }
    match tag(input, " ") {
        Ok((rest, found)) => Ok((rest, found)),
        Err(_) => match tag(input, "\t") {
            Ok((rest, found)) => Ok((rest, found)),
            Err(_) => Err(ParseError { severity: Severity::NoMatch, input, code: ErrorKind::Tag }),
        },
    }
}

} // verus!
