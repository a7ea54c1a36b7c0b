//! What atoms and dot-atoms are: the model that the recognisers of `atom` are held
//! to.

use crate::class::{is_atext, is_special};
use crate::failure::{no_match, ErrorKind, Outcome, Severity};
use crate::text::consumed;
use crate::token::atom_laws::lemma_after_atext;
use crate::token::comment_model::spec_cfws;
use vstd::prelude::*;

verus! {

/// The model of an `Atom` and of a `DotAtom`.
pub struct TokenView {
    pub pre_comment: Option<Seq<char>>,
    pub content: Seq<char>,
    pub post_comment: Option<Seq<char>>,
}

/// The characters of a text that may be there or not.
pub open spec fn opt_text(text: Option<String>) -> Option<Seq<char>> {
    match text {
        Some(t) => Some(t@),
        None => None,
    }
}

/// One character of an atom at the front of `s`.
pub open spec fn spec_atext(s: Seq<char>) -> Outcome<Seq<char>> {
    if s.len() > 0 && is_atext(s[0]) {
        Outcome::Match { value: s.take(1), rest: s.skip(1) }
    } else {
        Outcome::Fail(no_match(s, ErrorKind::OneOf))
    }
}

/// One delimiter at the front of `s`.
pub open spec fn spec_specials(s: Seq<char>) -> Outcome<Seq<char>> {
    if s.len() > 0 && is_special(s[0]) {
        Outcome::Match { value: s.take(1), rest: s.skip(1) }
    } else {
        Outcome::Fail(no_match(s, ErrorKind::OneOf))
    }
}

/// What is left of `s` behind the atom characters at its front.
pub open spec fn after_atext(s: Seq<char>) -> Seq<char>
    decreases s.len(),
{
    if s.len() > 0 && is_atext(s[0]) {
        after_atext(s.skip(1))
    } else {
        s
    }
}

/// Comments and folding white space that may be there or not: where they are no
/// match, nothing is consumed and there is no value. A fatal failure stays one.
pub open spec fn spec_opt_cfws(s: Seq<char>) -> Outcome<Option<Seq<char>>> {
    match spec_cfws(s) {
        Outcome::Match { value, rest } => Outcome::Match { value: Some(value), rest },
        Outcome::Fail(f) => if f.severity == Severity::Fatal {
            Outcome::Fail(f)
        } else {
            Outcome::Match { value: None, rest: s }
        },
    }
}

/// A token between optional comments and white space on both sides: `body` is the
/// input behind the first of them, `tail` the input behind the token's content.
pub open spec fn spec_decorated(
    pre_comment: Option<Seq<char>>,
    body: Seq<char>,
    tail: Seq<char>,
) -> Outcome<TokenView> {
    match spec_opt_cfws(tail) {
        Outcome::Fail(f) => Outcome::Fail(f),
        Outcome::Match { value: post_comment, rest } => Outcome::Match {
            value: TokenView { pre_comment, content: consumed(body, tail), post_comment },
            rest,
        },
    }
}

/// An atom: optional comments and white space, one or more atom characters, which
/// are its content as they stand, and optional comments and white space again.
pub open spec fn spec_atom(s: Seq<char>) -> Outcome<TokenView> {
    match spec_opt_cfws(s) {
        Outcome::Fail(f) => Outcome::Fail(f),
        Outcome::Match { value: pre_comment, rest: body } => if body.len() > 0 && is_atext(
            body[0],
        ) {
            spec_decorated(pre_comment, body, after_atext(body))
        } else {
            Outcome::Fail(no_match(body, ErrorKind::OneOf))
        },
    }
}

/// What is left of `s` behind the groups at its front that are each a dot and one or
/// more atom characters. A dot that no atom character follows belongs to no group.
pub open spec fn after_dot_parts(s: Seq<char>) -> Seq<char>
    decreases s.len(),
    via after_dot_parts_decreases
{
    if s.len() > 1 && s[0] == '.' && is_atext(s[1]) {
        after_dot_parts(after_atext(s.skip(1)))
    } else {
        s
    }
}

#[via_fn]
proof fn after_dot_parts_decreases(s: Seq<char>) {
    if s.len() > 1 {
        lemma_after_atext(s.skip(1));
    }
}

/// The text of a dot-atom: one or more atom characters, then groups of a dot and one
/// or more atom characters, as many as there are. The value is that front of the
/// input, as it stands.
pub open spec fn spec_dot_atom_text(s: Seq<char>) -> Outcome<Seq<char>> {
    if s.len() > 0 && is_atext(s[0]) {
        let rest = after_dot_parts(after_atext(s));
        Outcome::Match { value: consumed(s, rest), rest }
    } else {
        Outcome::Fail(no_match(s, ErrorKind::OneOf))
    }
}

/// A dot-atom: optional comments and white space, the text of a dot-atom, and
/// optional comments and white space again.
pub open spec fn spec_dot_atom(s: Seq<char>) -> Outcome<TokenView> {
    match spec_opt_cfws(s) {
        Outcome::Fail(f) => Outcome::Fail(f),
        Outcome::Match { value: pre_comment, rest: body } => match spec_dot_atom_text(body) {
            Outcome::Fail(f) => Outcome::Fail(f),
            Outcome::Match { rest: tail, .. } => spec_decorated(pre_comment, body, tail),
        },
    }
}

/// The shape of an atom's content: one or more atom characters, so no white space, no
/// parenthesis and no other delimiter.
pub open spec fn is_atom_text(v: Seq<char>) -> bool {
    v.len() > 0 && forall|i: int| 0 <= i < v.len() ==> is_atext(#[trigger] v[i])
}

/// The shape of a dot-atom's text: atom characters and dots, with an atom character
/// at either end and on both sides of every dot.
pub open spec fn is_dot_atom_text(v: Seq<char>) -> bool {
    &&& v.len() > 0
    &&& forall|i: int| 0 <= i < v.len() ==> is_atext(#[trigger] v[i]) || v[i] == '.'
    &&& v.first() != '.'
    &&& v.last() != '.'
    &&& forall|i: int| 0 <= i < v.len() - 1 ==> !(#[trigger] v[i] == '.' && v[i + 1] == '.')
}

} // verus!
