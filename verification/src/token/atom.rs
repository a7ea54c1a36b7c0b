//! Atoms and dot-atoms.

use crate::class::{
    atext_table, is_atext, is_special, is_wsp, lemma_atext_class, special_table,
};
use crate::failure::{advances, agrees, ErrorKind, Outcome, ParseError, Severity};
use crate::leaf::tag;
use crate::text::{
    byte_len, consumed, is_suffix, lemma_consumed_step, lemma_skip_is_suffix,
    lemma_starts_with_char, lemma_suffix_trans,
};
use crate::token::atom_laws::{
    lemma_after_atext, lemma_atom, lemma_dot_atom, lemma_dot_atom_text,
};
use crate::token::atom_model::{
    after_atext, after_dot_parts, is_atom_text, is_dot_atom_text, opt_text, spec_atext,
    spec_atom, spec_dot_atom, spec_dot_atom_text, spec_opt_cfws, spec_specials, TokenView,
};
use crate::token::basic::one_char_of;
use crate::token::wsp_comment::cfws;
use vstd::prelude::*;

verus! {

/// An atom: its characters, and what stood for the comments and white space on
/// either side of it.
#[derive(Debug)]
pub struct Atom {
    pub pre_comment: Option<String>,
    pub content: String,
    pub post_comment: Option<String>,
}

/// A dot-atom: runs of atom characters joined by single dots, taken from the input
/// as they stand, and what stood for the comments and white space on either side.
#[derive(Debug)]
pub struct DotAtom {
    pub pre_comment: Option<String>,
    pub content: String,
    pub post_comment: Option<String>,
}

impl Atom {
    /// What holds of every atom that `atom` hands back: the content is one or more
    /// atom characters.
    pub open spec fn well_formed(&self) -> bool {
        is_atom_text(self.content@)
    }
}

impl DotAtom {
    /// What holds of every dot-atom that `dot_atom` hands back: the content has the
    /// shape of a dot-atom's text.
    pub open spec fn well_formed(&self) -> bool {
        is_dot_atom_text(self.content@)
    }
}

impl View for Atom {
    type V = TokenView;

    open spec fn view(&self) -> TokenView {
        TokenView {
            pre_comment: opt_text(self.pre_comment),
            content: self.content@,
            post_comment: opt_text(self.post_comment),
        }
    }
}

impl View for DotAtom {
    type V = TokenView;

    open spec fn view(&self) -> TokenView {
        TokenView {
            pre_comment: opt_text(self.pre_comment),
            content: self.content@,
            post_comment: opt_text(self.post_comment),
        }
    }
}

/// Recognises one character of an atom.
pub fn atext<'a>(input: &'a str) -> (res: Result<(&'a str, &'a str), ParseError<'a>>)
    ensures
        agrees(res, spec_atext(input@)),
        advances(res, input@),
        input@.len() > 0 && (is_special(input@[0]) || is_wsp(input@[0])) ==> res is Err,
{
    proof {
        if input@.len() > 0 {
            lemma_atext_class(input@[0]);
        }
        assert(input@.skip(0) =~= input@);
        if input@.len() > 0 {
            lemma_skip_is_suffix(input@, 1);
        }
    }
    one_char_of(input, atext_table())
}

/// Recognises one delimiter: one of `( ) < > [ ] : ; @ \ , . "`.
pub fn specials<'a>(input: &'a str) -> (res: Result<(&'a str, &'a str), ParseError<'a>>)
    ensures
        agrees(res, spec_specials(input@)),
        advances(res, input@),
{
    proof {
        assert(input@.skip(0) =~= input@);
        if input@.len() > 0 {
            lemma_skip_is_suffix(input@, 1);
        }
    }
    one_char_of(input, special_table())
}

/// Recognises comments and white space where there are any.
fn opt_cfws<'a>(input: &'a str) -> (res: Result<(&'a str, Option<String>), ParseError<'a>>)
    ensures
        match spec_opt_cfws(input@) {
            Outcome::Match { value, rest } => res matches Ok((unread, found)) && opt_text(found)
                == value && unread@ == rest,
            Outcome::Fail(f) => res matches Err(e) && e@ == f,
        },
{
    match cfws(input) {
        Ok((rest, text)) => Ok((rest, Some(text))),
        Err(e) => match e.severity {
            Severity::Fatal => Err(e),
            Severity::NoMatch => Ok((input, None)),
        },
    }
}

/// Recognises an atom. The content is the run of atom characters as it stands in the
/// input; what surrounds it is handed back apart, as `cfws` gives it.
pub fn atom<'a>(input: &'a str) -> (res: Result<(&'a str, Atom), ParseError<'a>>)
    ensures
        agrees(res, spec_atom(input@)),
        advances(res, input@),
        res matches Ok((_, found)) ==> found.well_formed(),
{
    proof {
        lemma_atom(input@);
    }
    let (body, pre_comment) = match opt_cfws(input) {
        Ok(found) => found,
        Err(e) => {
            return Err(e);
        },
    };
    let (first, found) = match atext(body) {
        Ok(found) => found,
        Err(e) => {
            return Err(e);
        },
    };
    let mut content = found.to_owned();
    let mut rest = first;
    proof {
        lemma_skip_is_suffix(body@, 1);
        assert(consumed(body@, rest@) =~= body@.take(1));
    }
    loop
        invariant
            is_suffix(rest@, body@),
            body@.len() > 0 && is_atext(body@[0]),
            content@ == consumed(body@, rest@),
            after_atext(rest@) == after_atext(body@),
            spec_opt_cfws(input@) == (Outcome::Match {
                value: opt_text(pre_comment),
                rest: body@,
            }),
        decreases rest@.len(),
    {
        proof {
            lemma_atom(input@);
        }
        match atext(rest) {
            Ok((unread, found)) => {
                content.append(found);
                proof {
                    lemma_consumed_step(body@, rest@);
                }
                rest = unread;
            },
            Err(_) => {
                return match opt_cfws(rest) {
                    Ok((unread, post_comment)) => Ok(
                        (unread, Atom { pre_comment, content, post_comment }),
                    ),
                    Err(e) => Err(e),
                };
            },
        }
    }
}

/// Skips the atom characters at the front of the input and counts them.
fn skip_atext<'a>(input: &'a str) -> (res: (&'a str, usize))
    ensures
        res.0@ == after_atext(input@),
        res.1 == input@.len() - res.0@.len(),
        input@.len() <= usize::MAX,
{
    let limit = byte_len(input);
    let mut rest = input;
    let mut n: usize = 0;
    proof {
        assert(input@.skip(0) =~= input@);
    }
    loop
        invariant
            is_suffix(rest@, input@),
            n == input@.len() - rest@.len(),
            after_atext(rest@) == after_atext(input@),
            input@.len() <= limit,
        decreases rest@.len(),
    {
        match atext(rest) {
            Ok((unread, _)) => {
                proof {
                    lemma_skip_is_suffix(rest@, 1);
                    lemma_suffix_trans(unread@, rest@, input@);
                }
                rest = unread;
                n = n + 1;
            },
            Err(_) => {
                return (rest, n);
            },
        }
    }
}

/// Recognises the text of a dot-atom and hands it back as one slice of the input. A
/// dot is taken only together with the atom characters behind it: the text never
/// ends in a dot, and never holds two dots in a row.
pub fn dot_atom_text<'a>(input: &'a str) -> (res: Result<(&'a str, &'a str), ParseError<'a>>)
    ensures
        agrees(res, spec_dot_atom_text(input@)),
        advances(res, input@),
        res matches Ok((unread, found)) ==> found@ + unread@ == input@ && is_dot_atom_text(found@),
{
    proof {
        lemma_dot_atom_text(input@);
    }
    let (first, lead) = skip_atext(input);
    proof {
        reveal_strlit(".");
        lemma_after_atext(input@);
    }
    if lead == 0 {
        return Err(ParseError { severity: Severity::NoMatch, input, code: ErrorKind::OneOf });
    }
    let mut rest = first;
    let mut n: usize = lead;
    loop
        invariant
            is_suffix(rest@, input@),
            n == input@.len() - rest@.len(),
            input@.len() <= usize::MAX,
            input@.len() > 0 && is_atext(input@[0]),
            after_dot_parts(rest@) == after_dot_parts(after_atext(input@)),
            "."@.len() == 1,
            "."@[0] == '.',
        decreases rest@.len(),
    {
        proof {
            lemma_dot_atom_text(input@);
            lemma_starts_with_char(rest@, "."@);
        }
        match tag(rest, ".") {
            Err(_) => {
                return Ok((rest, input.substring_char(0, n)));
            },
            Ok((unread, _)) => {
                let (tail, run) = skip_atext(unread);
                proof {
                    lemma_after_atext(unread@);
                    lemma_skip_is_suffix(rest@, 1);
                    lemma_suffix_trans(tail@, unread@, rest@);
                    lemma_suffix_trans(tail@, rest@, input@);
                }
                if run == 0 {
                    return Ok((rest, input.substring_char(0, n)));
                }
                rest = tail;
                n = n + 1 + run;
            },
        }
    }
}

/// Recognises a dot-atom. The content is the text of the dot-atom as it stands in
/// the input; what surrounds it is handed back apart, as `cfws` gives it.
pub fn dot_atom<'a>(input: &'a str) -> (res: Result<(&'a str, DotAtom), ParseError<'a>>)
    ensures
        agrees(res, spec_dot_atom(input@)),
        advances(res, input@),
        res matches Ok((_, found)) ==> found.well_formed(),
{
    proof {
        lemma_dot_atom(input@);
    }
    let (body, pre_comment) = match opt_cfws(input) {
        Ok(found) => found,
        Err(e) => {
            return Err(e);
        },
    };
    let (tail, text) = match dot_atom_text(body) {
        Ok(found) => found,
        Err(e) => {
            return Err(e);
        },
    };
    let content = text.to_owned();
    match opt_cfws(tail) {
        Ok((rest, post_comment)) => Ok((rest, DotAtom { pre_comment, content, post_comment })),
        Err(e) => Err(e),
    }
}

} // verus!
