//! What folding white space, quoted pairs and comments are: the model that the
//! recognisers of `wsp_comment` are held to.

use crate::class::{is_ctext, is_vchar, is_wsp};
use crate::failure::{fatal, no_match, ErrorKind, Outcome, Severity};
use crate::text::{consumed, starts_with};
use crate::token::comment_laws::{lemma_after_opt_fws, lemma_comment, lemma_fws};
use vstd::prelude::*;

verus! {

/// What is left of `s` behind the spaces and tabs at its front.
pub open spec fn after_wsp(s: Seq<char>) -> Seq<char>
    decreases s.len(),
{
    if s.len() > 0 && is_wsp(s[0]) {
        after_wsp(s.skip(1))
    } else {
        s
    }
}

/// A carriage return and a line feed.
pub open spec fn line_break() -> Seq<char> {
    seq!['\r', '\n']
}

/// Folding white space at the front of `s`: spaces and tabs, or spaces and tabs (there
/// may be none), a line break, and at least one space or tab. Once a line break has
/// been read after the first run, the white space that must follow it is required:
/// the first run alone is then no match.
pub open spec fn spec_fws(s: Seq<char>) -> Outcome<Seq<char>> {
    let fold = after_wsp(s);
    if starts_with(fold, line_break()) {
        let tail = fold.skip(2);
        if tail.len() > 0 && is_wsp(tail[0]) {
            Outcome::Match { value: consumed(s, after_wsp(tail)), rest: after_wsp(tail) }
        } else {
            Outcome::Fail(no_match(tail, ErrorKind::Tag))
        }
    } else if s.len() > 0 && is_wsp(s[0]) {
        Outcome::Match { value: consumed(s, fold), rest: fold }
    } else {
        Outcome::Fail(no_match(s, ErrorKind::Tag))
    }
}

/// A backslash and the visible character, space or tab that it escapes; the value is
/// the escaped character alone. A backslash at the very end of the input is fatal.
pub open spec fn spec_quoted_pair(s: Seq<char>) -> Outcome<Seq<char>> {
    if s.len() == 0 || s[0] != '\\' {
        Outcome::Fail(no_match(s, ErrorKind::Tag))
    } else if s.len() == 1 {
        Outcome::Fail(fatal(s.skip(1), ErrorKind::Tag))
    } else if is_vchar(s[1]) || is_wsp(s[1]) {
        Outcome::Match { value: s.subrange(1, 2), rest: s.skip(2) }
    } else {
        Outcome::Fail(no_match(s.skip(1), ErrorKind::Tag))
    }
}

/// One character that may stand by itself inside a comment.
pub open spec fn spec_ctext(s: Seq<char>) -> Outcome<Seq<char>> {
    if s.len() > 0 && is_ctext(s[0]) {
        Outcome::Match { value: s.take(1), rest: s.skip(1) }
    } else {
        Outcome::Fail(no_match(s, ErrorKind::OneOf))
    }
}

/// What is left of `s` behind folding white space, if `s` begins with any.
pub open spec fn after_opt_fws(s: Seq<char>) -> Seq<char> {
    match spec_fws(s) {
        Outcome::Match { rest, .. } => rest,
        Outcome::Fail(_) => s,
    }
}

/// What folding white space at the front of `s` stands for in a comment: one space.
pub open spec fn fold_space(s: Seq<char>) -> Seq<char> {
    match spec_fws(s) {
        Outcome::Match { .. } => seq![' '],
        Outcome::Fail(_) => Seq::empty(),
    }
}

/// The outcome `o`, with `text` in front of its value.
pub open spec fn with_text(text: Seq<char>, o: Outcome<Seq<char>>) -> Outcome<Seq<char>> {
    match o {
        Outcome::Match { value, rest } => Outcome::Match { value: text + value, rest },
        Outcome::Fail(f) => Outcome::Fail(f),
    }
}

/// One piece of a comment's content: a character of `ctext`, else a quoted pair, else
/// a whole comment. A fatal failure of the quoted pair or of the comment is the
/// failure of the content.
pub open spec fn spec_ccontent(s: Seq<char>) -> Outcome<Seq<char>>
    decreases s.len(), 1nat,
{
    if s.len() > 0 && is_ctext(s[0]) {
        Outcome::Match { value: s.take(1), rest: s.skip(1) }
    } else {
        match spec_quoted_pair(s) {
            Outcome::Match { value, rest } => Outcome::Match { value, rest },
            Outcome::Fail(f) => if f.severity == Severity::Fatal {
                Outcome::Fail(f)
            } else {
                spec_comment(s)
            },
        }
    }
}

/// The contents of a comment, as many as there are: each is a content with folding
/// white space before it or not, and stands for its own value, behind one space where
/// there was white space. The repetition ends where no content is found; white space
/// read in that last attempt is not consumed. A fatal failure of a content is the
/// failure of the whole.
///
/// (A content always consumes something, which is `lemma_ccontent`; the test on the
/// lengths only serves to show that the definition is well founded.)
pub open spec fn spec_ccontents(s: Seq<char>) -> Outcome<Seq<char>>
    decreases s.len(), 2nat,
    via ccontents_decreases
{
    match spec_ccontent(after_opt_fws(s)) {
        Outcome::Fail(f) => if f.severity == Severity::Fatal {
            Outcome::Fail(f)
        } else {
            Outcome::Match { value: Seq::empty(), rest: s }
        },
        Outcome::Match { value, rest } => if rest.len() < s.len() {
            with_text(fold_space(s) + value, spec_ccontents(rest))
        } else {
            Outcome::Match { value: Seq::empty(), rest: s }
        },
    }
}

#[via_fn]
proof fn ccontents_decreases(s: Seq<char>) {
    lemma_fws(s);
}

/// A comment behind its opening parenthesis: the contents, folding white space or
/// none, and the closing parenthesis. The value is the contents and the closing
/// parenthesis; the white space before that parenthesis stands for nothing. The
/// comment has to be closed: a missing closing parenthesis is fatal, at the place
/// where it was looked for.
pub open spec fn spec_comment_end(s: Seq<char>) -> Outcome<Seq<char>>
    decreases s.len(), 3nat,
{
    match spec_ccontents(s) {
        Outcome::Fail(f) => Outcome::Fail(f),
        Outcome::Match { value, rest } => {
            let close = after_opt_fws(rest);
            if close.len() > 0 && close[0] == ')' {
                Outcome::Match { value: value + seq![')'], rest: close.skip(1) }
            } else {
                Outcome::Fail(fatal(close, ErrorKind::Tag))
            }
        },
    }
}

/// A comment: an opening parenthesis and what `spec_comment_end` describes. Its
/// value is the contents between two parentheses. Input that does not begin with an
/// opening parenthesis is no match; every other failure is fatal.
pub open spec fn spec_comment(s: Seq<char>) -> Outcome<Seq<char>>
    decreases s.len(), 0nat,
{
    if s.len() == 0 || s[0] != '(' {
        Outcome::Fail(no_match(s, ErrorKind::Tag))
    } else {
        with_text(seq!['('], spec_comment_end(s.skip(1)))
    }
}

/// The shape of a comment's value: it begins with an opening parenthesis and ends with
/// a closing one.
pub open spec fn is_comment_text(v: Seq<char>) -> bool {
    v.len() >= 2 && v.first() == '(' && v.last() == ')'
}

/// The input is folding white space from end to end.
pub open spec fn is_white_space(s: Seq<char>) -> bool {
    spec_fws(s) matches Outcome::Match { rest, .. } && rest.len() == 0
}

/// What closes `depth` comments that stand open one inside the other, the innermost
/// first: the value is all that they still hold, closing parentheses included.
pub open spec fn spec_comment_ends(s: Seq<char>, depth: nat) -> Outcome<Seq<char>>
    decreases depth,
{
    if depth == 0 {
        Outcome::Match { value: Seq::empty(), rest: s }
    } else {
        match spec_comment_end(s) {
            Outcome::Fail(f) => Outcome::Fail(f),
            Outcome::Match { value, rest } => with_text(
                value,
                spec_comment_ends(rest, (depth - 1) as nat),
            ),
        }
    }
}

/// Comments one after another, as many as there are, each with folding white space
/// before it or not; the value is the comments' values, each behind one space where
/// there was white space. The repetition ends where no comment is found; white space
/// read in that last attempt is not consumed. An unclosed comment is fatal.
pub open spec fn spec_comments(s: Seq<char>) -> Outcome<Seq<char>>
    decreases s.len(),
    via comments_decreases
{
    match spec_comment(after_opt_fws(s)) {
        Outcome::Fail(f) => if f.severity == Severity::Fatal {
            Outcome::Fail(f)
        } else {
            Outcome::Match { value: Seq::empty(), rest: s }
        },
        Outcome::Match { value, rest } => with_text(fold_space(s) + value, spec_comments(rest)),
    }
}

#[via_fn]
proof fn comments_decreases(s: Seq<char>) {
    lemma_after_opt_fws(s);
    lemma_comment(after_opt_fws(s));
}

/// Comments and folding white space, in one of two forms. Where a comment is found
/// at the front, behind white space or not: the comments as `spec_comments` gives
/// them, and one more space where folding white space follows the last of them. Else
/// folding white space alone, which stands for one space whatever it is made of.
pub open spec fn spec_cfws(s: Seq<char>) -> Outcome<Seq<char>> {
    match spec_comment(after_opt_fws(s)) {
        Outcome::Fail(f) => if f.severity == Severity::Fatal {
            Outcome::Fail(f)
        } else {
            match spec_fws(s) {
                Outcome::Match { rest, .. } => Outcome::Match { value: seq![' '], rest },
                Outcome::Fail(f) => Outcome::Fail(f),
            }
        },
        Outcome::Match { .. } => match spec_comments(s) {
            Outcome::Fail(f) => Outcome::Fail(f),
            Outcome::Match { value, rest } => match spec_fws(rest) {
                Outcome::Match { rest: end, .. } => Outcome::Match {
                    value: value + seq![' '],
                    rest: end,
                },
                Outcome::Fail(_) => Outcome::Match { value, rest },
            },
        },
    }
}

} // verus!
