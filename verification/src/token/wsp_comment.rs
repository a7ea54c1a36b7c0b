//! Folding white space, quoted pairs and comments.

use crate::class::ctext_table;
use crate::failure::{advances, agrees, ErrorKind, Outcome, ParseError, Severity};
use crate::leaf::{crlf, tag};
use crate::text::{
    byte_len, is_suffix, lemma_skip_is_suffix, lemma_starts_with_char, lemma_suffix_trans,
};
use crate::token::basic::{one_char_of, vchar, wsp};
use crate::token::comment_balance::{balanced, lemma_balanced_comment, unescaped};
use crate::token::comment_laws::{
    lemma_after_opt_fws, lemma_after_wsp, lemma_ccontent, lemma_cfws,
    lemma_cfws_of_white_space, lemma_comment, lemma_comment_ends_close,
    lemma_comment_ends_content, lemma_comment_ends_one, lemma_comment_ends_open, lemma_fws,
    lemma_quoted_pair, lemma_with_text_twice,
};
use crate::token::comment_model::{
    after_opt_fws, after_wsp, fold_space, is_comment_text, is_white_space, spec_ccontent,
    spec_cfws, spec_comment, spec_comment_ends, spec_comments, spec_ctext, spec_fws,
    spec_quoted_pair, with_text,
};
use vstd::prelude::*;

verus! {

/// Skips the spaces and tabs at the front of the input and counts them.
fn skip_wsp<'a>(input: &'a str) -> (res: (&'a str, usize))
    ensures
        res.0@ == after_wsp(input@),
        res.1 == input@.len() - res.0@.len(),
        input@.len() <= usize::MAX,
{
    let limit = byte_len(input);
    let mut rest = input;
    let mut n: usize = 0;
    proof {
        assert(input@.skip(0) =~= input@);
    }
    loop
        invariant
            is_suffix(rest@, input@),
            n == input@.len() - rest@.len(),
            after_wsp(rest@) == after_wsp(input@),
            input@.len() <= limit,
        decreases rest@.len(),
    {
        match wsp(rest) {
            Ok((unread, _)) => {
                proof {
                    lemma_skip_is_suffix(rest@, 1);
                    lemma_suffix_trans(unread@, rest@, input@);
                }
                rest = unread;
                n = n + 1;
            },
            Err(_) => {
                return (rest, n);
            },
        }
    }
}

/// Recognises folding white space and hands back what is behind it and the number of
/// characters that it takes.
pub(crate) fn fws_len<'a>(input: &'a str) -> (res: Result<(&'a str, usize), ParseError<'a>>)
    ensures
        match spec_fws(input@) {
            Outcome::Match { value, rest } => res matches Ok((unread, n)) && unread@ == rest && n
                == input@.len() - rest.len(),
            Outcome::Fail(f) => res matches Err(e) && e@ == f,
        },
{
    let (fold, lead) = skip_wsp(input);
    proof {
        lemma_fws(input@);
        lemma_after_wsp(input@);
    }
    match crlf(fold) {
        Ok((tail, _)) => {
            let (rest, more) = skip_wsp(tail);
            proof {
                lemma_after_wsp(tail@);
            }
            if more == 0 {
                Err(ParseError { severity: Severity::NoMatch, input: tail, code: ErrorKind::Tag })
            } else {
                Ok((rest, lead + 2 + more))
            }
        },
        Err(_) => {
            if lead == 0 {
                Err(ParseError { severity: Severity::NoMatch, input, code: ErrorKind::Tag })
            } else {
                Ok((fold, lead))
            }
        },
    }
}

/// Recognises folding white space and hands it back as it stands in the input,
/// line break included.
pub fn fws<'a>(input: &'a str) -> (res: Result<(&'a str, &'a str), ParseError<'a>>)
    ensures
        agrees(res, spec_fws(input@)),
        advances(res, input@),
        res matches Ok((unread, found)) ==> found@ + unread@ == input@,
{
    proof {
        lemma_fws(input@);
    }
    match fws_len(input) {
        Ok((rest, n)) => Ok((rest, input.substring_char(0, n))),
        Err(e) => Err(e),
    }
}

/// Recognises a backslash with the character that it escapes, and hands back that
/// character without the backslash. A backslash that ends the input is a fatal
/// failure; one before a character that cannot be escaped is no match.
pub fn quoted_pair<'a>(input: &'a str) -> (res: Result<(&'a str, &'a str), ParseError<'a>>)
    ensures
        agrees(res, spec_quoted_pair(input@)),
        advances(res, input@),
{
    proof {
        lemma_quoted_pair(input@);
        reveal_strlit("\\");
        lemma_starts_with_char(input@, "\\"@);
    }
    match tag(input, "\\") {
        Err(_) => Err(ParseError { severity: Severity::NoMatch, input, code: ErrorKind::Tag }),
        Ok((escaped, _)) => {
            proof {
                if escaped@.len() > 0 {
                    assert(escaped@.skip(1) =~= input@.skip(2));
                    assert(escaped@.take(1) =~= input@.subrange(1, 2));
                }
            }
            match vchar(escaped) {
                Ok((rest, found)) => Ok((rest, found)),
                Err(_) => match wsp(escaped) {
                    Ok((rest, found)) => Ok((rest, found)),
                    Err(_) => {
                        let severity = if escaped.is_empty() {
                            Severity::Fatal
                        } else {
                            Severity::NoMatch
                        };
                        Err(ParseError { severity, input: escaped, code: ErrorKind::Tag })
                    },
                },
            }
        },
    }
}

/// Recognises one character that may stand by itself inside a comment.
pub fn ctext<'a>(input: &'a str) -> (res: Result<(&'a str, &'a str), ParseError<'a>>)
    ensures
        agrees(res, spec_ctext(input@)),
        advances(res, input@),
{
    proof {
        assert(input@.skip(0) =~= input@);
        if input@.len() > 0 {
            lemma_skip_is_suffix(input@, 1);
        }
    }
    one_char_of(input, ctext_table())
}

/// Recognises one piece of a comment's content and hands back its value: the
/// character, the escaped character, or the nested comment with its parentheses.
pub fn ccontent<'a>(input: &'a str) -> (res: Result<(&'a str, String), ParseError<'a>>)
    ensures
        agrees(res, spec_ccontent(input@)),
        advances(res, input@),
{
    proof {
        lemma_ccontent(input@);
    }
    match ctext(input) {
        Ok((rest, found)) => Ok((rest, found.to_owned())),
        Err(_) => match quoted_pair(input) {
            Ok((rest, found)) => Ok((rest, found.to_owned())),
            Err(e) => match e.severity {
                Severity::Fatal => Err(e),
                Severity::NoMatch => comment(input),
            },
        },
    }
}

/// Recognises a comment and hands back its text between parentheses, with one space
/// for each folding white space that stands before a content, and nothing for the one
/// before a closing parenthesis.
///
/// Where no backslash was read, the parentheses of the text balance. (An escaped
/// parenthesis is kept without its backslash, and is then one too many.)
///
/// Comments nest to any depth. The input is read in one pass from left to right, with
/// a count of the comments that stand open, so that the depth of the nesting costs no
/// stack.
pub fn comment<'a>(input: &'a str) -> (res: Result<(&'a str, String), ParseError<'a>>)
    ensures
        agrees(res, spec_comment(input@)),
        advances(res, input@),
        res matches Ok((_, value)) ==> is_comment_text(value@),
        res matches Ok((unread, value)) ==> (unescaped(input@, unread@) ==> balanced(value@)),
{
    proof {
        lemma_comment(input@);
        reveal_strlit("(");
        reveal_strlit(")");
        reveal_strlit(" ");
        lemma_starts_with_char(input@, "("@);
    }
    let first = match tag(input, "(") {
        Ok((unread, _)) => unread,
        Err(_) => {
            return Err(
                ParseError { severity: Severity::NoMatch, input, code: ErrorKind::Tag },
            );
        },
    };
    let limit = byte_len(input);
    let mut text = String::from_str("(");
    let mut rest = first;
    let mut depth: usize = 1;
    proof {
        lemma_skip_is_suffix(input@, 1);
        lemma_comment_ends_one(first@);
        assert(text@ =~= seq!['(']);
    }
    loop
        invariant
            is_suffix(rest@, input@),
            1 <= depth <= input@.len() - rest@.len(),
            input@.len() <= limit,
            spec_comment(input@) == with_text(text@, spec_comment_ends(rest@, depth as nat)),
            "("@ == seq!['('],
            ")"@ == seq![')'],
            " "@ == seq![' '],
        decreases rest@.len(),
    {
        proof {
            lemma_comment(input@);
        }
        let (item, spaced) = match fws_len(rest) {
            Ok((unread, _)) => (unread, true),
            Err(_) => (rest, false),
        };
        let piece = match ctext(item) {
            Ok(found) => Some(found),
            Err(_) => match quoted_pair(item) {
                Ok(found) => Some(found),
                Err(e) => match e.severity {
                    Severity::Fatal => {
                        return Err(e);
                    },
                    Severity::NoMatch => None,
                },
            },
        };
        let ghost before = text@;
        proof {
            lemma_after_opt_fws(rest@);
            lemma_ccontent(item@);
            lemma_comment(item@);
            lemma_starts_with_char(item@, "("@);
            lemma_starts_with_char(item@, ")"@);
        }
        match piece {
            Some((unread, found)) => {
                if spaced {
                    text.append(" ");
                }
                text.append(found);
                proof {
                    lemma_comment_ends_content(rest@, depth as nat);
                    lemma_with_text_twice(
                        before,
                        fold_space(rest@) + found@,
                        spec_comment_ends(unread@, depth as nat),
                    );
                    assert(text@ =~= before + (fold_space(rest@) + found@));
                    lemma_suffix_trans(unread@, item@, rest@);
                    lemma_suffix_trans(unread@, rest@, input@);
                }
                rest = unread;
            },
            None => match tag(item, "(") {
                Ok((unread, _)) => {
                    if spaced {
                        text.append(" ");
                    }
                    text.append("(");
                    proof {
                        lemma_comment_ends_open(rest@, depth as nat);
                        lemma_with_text_twice(
                            before,
                            fold_space(rest@) + seq!['('],
                            spec_comment_ends(unread@, (depth + 1) as nat),
                        );
                        assert(text@ =~= before + (fold_space(rest@) + seq!['(']));
                        lemma_skip_is_suffix(item@, 1);
                        lemma_suffix_trans(unread@, item@, rest@);
                        lemma_suffix_trans(unread@, rest@, input@);
                    }
                    depth = depth + 1;
                    rest = unread;
                },
                Err(_) => {
                    proof {
                        lemma_comment_ends_close(rest@, depth as nat);
                    }
                    match tag(item, ")") {
                        Ok((unread, _)) => {
                            text.append(")");
                            proof {
                                lemma_with_text_twice(
                                    before,
                                    seq![')'],
                                    spec_comment_ends(unread@, (depth - 1) as nat),
                                );
                                lemma_skip_is_suffix(item@, 1);
                                lemma_suffix_trans(unread@, item@, rest@);
                                lemma_suffix_trans(unread@, rest@, input@);
                            }
                            depth = depth - 1;
                            rest = unread;
                            if depth == 0 {
                                proof {
                                    assert(text@ + Seq::<char>::empty() =~= text@);
                                    if unescaped(input@, rest@) {
                                        lemma_balanced_comment(input@);
                                    }
                                }
                                return Ok((rest, text));
                            }
                        },
                        Err(_) => {
                            return Err(
                                ParseError {
                                    severity: Severity::Fatal,
                                    input: item,
                                    code: ErrorKind::Tag,
                                },
                            );
                        },
                    }
                },
            },
        }
    }
}

/// Recognises comments and folding white space and hands back what they stand for:
/// the comments' texts with single spaces for the white space between and around
/// them, or a single space where there is white space only.
pub fn cfws<'a>(input: &'a str) -> (res: Result<(&'a str, String), ParseError<'a>>)
    ensures
        agrees(res, spec_cfws(input@)),
        advances(res, input@),
        is_white_space(input@) ==> (res matches Ok((unread, value)) && unread@.len() == 0
            && value@ == seq![' ']),
{
    proof {
        if is_white_space(input@) {
            lemma_cfws_of_white_space(input@);
        }
        lemma_cfws(input@);
        reveal_strlit(" ");
        assert(input@.skip(0) =~= input@);
        lemma_with_text_twice(Seq::empty(), Seq::empty(), spec_comments(input@));
        assert(Seq::<char>::empty() + Seq::<char>::empty() =~= Seq::<char>::empty());
    }
    let mut text = String::new();
    let mut rest = input;
    let mut any = false;
    loop
        invariant
            is_suffix(rest@, input@),
            spec_comments(input@) == with_text(text@, spec_comments(rest@)),
            any ==> spec_comment(after_opt_fws(input@)) is Match,
            !any ==> rest@ == input@ && text@.len() == 0,
            " "@ == seq![' '],
        decreases rest@.len(),
    {
        proof {
            lemma_cfws(input@);
        }
        let gap = fws_len(rest);
        let item = match gap {
            Ok((unread, _)) => unread,
            Err(_) => rest,
        };
        proof {
            lemma_after_opt_fws(rest@);
            lemma_comment(item@);
        }
        let ghost before = text@;
        match comment(item) {
            Ok((unread, value)) => {
                if gap.is_ok() {
                    text.append(" ");
                }
                text.append(value.as_str());
                proof {
                    let added = fold_space(rest@) + value@;
                    lemma_with_text_twice(before, added, spec_comments(unread@));
                    assert(text@ =~= before + added);
                    lemma_suffix_trans(unread@, item@, rest@);
                    lemma_suffix_trans(unread@, rest@, input@);
                }
                rest = unread;
                any = true;
            },
            Err(e) => {
                match e.severity {
                    Severity::Fatal => {
                        return Err(e);
                    },
                    Severity::NoMatch => {
                        proof {
                            assert(text@ + Seq::<char>::empty() =~= text@);
                        }
                        return match gap {
                            Ok((unread, _)) => {
                                text.append(" ");
                                Ok((unread, text))
                            },
                            Err(e) => if any {
                                Ok((rest, text))
                            } else {
                                Err(e)
                            },
                        };
                    },
                }
            },
        }
    }
}

} // verus!
