//! What holds of atoms and dot-atoms as `atom_model` defines them.

use crate::class::{is_atext, is_special, is_wsp, lemma_atext_class};
use crate::failure::{no_match, ErrorKind, Outcome, Severity};
use crate::text::{consumed, is_suffix, lemma_skip_is_suffix, lemma_suffix_trans};
use crate::token::atom_model::{
    after_atext, after_dot_parts, is_atom_text, is_dot_atom_text, spec_atext, spec_atom,
    spec_dot_atom, spec_dot_atom_text, spec_opt_cfws,
};
use crate::token::comment_laws::lemma_cfws;
use vstd::prelude::*;

verus! {

/// `after_atext` drops a front of atom characters, and stops at the first other
/// character.
pub proof fn lemma_after_atext(s: Seq<char>)
    ensures
        is_suffix(after_atext(s), s),
        forall|i: int| 0 <= i < s.len() - after_atext(s).len() ==> is_atext(#[trigger] s[i]),
        after_atext(s).len() > 0 ==> !is_atext(after_atext(s)[0]),
        s.len() > 0 && is_atext(s[0]) ==> after_atext(s).len() < s.len(),
    decreases s.len(),
{
    if s.len() > 0 && is_atext(s[0]) {
        let t = s.skip(1);
        lemma_after_atext(t);
        lemma_skip_is_suffix(s, 1);
        lemma_suffix_trans(after_atext(t), t, s);
        assert forall|i: int| 0 <= i < s.len() - after_atext(s).len() implies is_atext(
            #[trigger] s[i],
        ) by {
            if i > 0 {
                assert(s[i] == t[i - 1]);
            }
        }
    } else {
        assert(s.skip(0) =~= s);
    }
}

/// The recogniser of atom characters rejects every delimiter, every space and every
/// tab at the front of the input.
pub proof fn lemma_atext_rejects(s: Seq<char>)
    requires
        s.len() > 0,
        is_special(s[0]) || is_wsp(s[0]),
    ensures
        spec_atext(s) == Outcome::<Seq<char>>::Fail(no_match(s, ErrorKind::OneOf)),
{
    lemma_atext_class(s[0]);
}

/// Optional comments and white space end inside the input, and fail only fatally.
pub proof fn lemma_opt_cfws(s: Seq<char>)
    ensures
        match spec_opt_cfws(s) {
            Outcome::Match { value, rest } => is_suffix(rest, s),
            Outcome::Fail(f) => is_suffix(f.input, s) && f.severity == Severity::Fatal,
        },
{
    lemma_cfws(s);
    assert(s.skip(0) =~= s);
}

/// The content of an atom is one or more atom characters and nothing else: it holds
/// no white space, no parenthesis and no other delimiter. What is left of the input
/// is a suffix of it, and so is the unread text of a failure.
pub proof fn lemma_atom(s: Seq<char>)
    ensures
        match spec_atom(s) {
            Outcome::Match { value, rest } => {
                &&& is_suffix(rest, s)
                &&& rest.len() < s.len()
                &&& is_atom_text(value.content)
            },
            Outcome::Fail(f) => is_suffix(f.input, s),
        },
{
    lemma_opt_cfws(s);
    if let Outcome::Match { value: pre_comment, rest: body } = spec_opt_cfws(s) {
        if body.len() > 0 && is_atext(body[0]) {
            let tail = after_atext(body);
            lemma_after_atext(body);
            lemma_suffix_trans(tail, body, s);
            lemma_opt_cfws(tail);
            match spec_opt_cfws(tail) {
                Outcome::Match { rest, .. } => {
                    lemma_suffix_trans(rest, tail, s);
                },
                Outcome::Fail(f) => {
                    lemma_suffix_trans(f.input, tail, s);
                },
            }
        }
    }
}

/// What `after_dot_parts` drops is made of whole groups: it begins with a dot, ends
/// with an atom character and holds no two dots in a row; and no further group
/// stands where it stops.
proof fn lemma_after_dot_parts(t: Seq<char>)
    ensures
        is_suffix(after_dot_parts(t), t),
        ({
            let r = after_dot_parts(t);
            let m = t.len() - r.len();
            &&& forall|i: int| 0 <= i < m ==> is_atext(#[trigger] t[i]) || t[i] == '.'
            &&& m > 0 ==> t[0] == '.' && is_atext(t[m - 1])
            &&& forall|i: int| 0 <= i < m - 1 ==> !(#[trigger] t[i] == '.' && t[i + 1] == '.')
            &&& !(r.len() > 1 && r[0] == '.' && is_atext(r[1]))
            &&& (t.len() == 0 || !is_atext(t[0])) ==> (r.len() == 0 || !is_atext(r[0]))
        }),
    decreases t.len(),
{
    if t.len() > 1 && t[0] == '.' && is_atext(t[1]) {
        let u = t.skip(1);
        let a = after_atext(u);
        lemma_after_atext(u);
        lemma_skip_is_suffix(t, 1);
        lemma_suffix_trans(a, u, t);
        lemma_after_dot_parts(a);
        let r = after_dot_parts(a);
        lemma_suffix_trans(r, a, t);
        let run = u.len() - a.len();
        let m = t.len() - r.len();
        assert forall|i: int| 0 <= i < m implies (is_atext(#[trigger] t[i]) || t[i] == '.') && (i
            < m - 1 ==> !(t[i] == '.' && t[i + 1] == '.')) by {
            if 1 <= i <= run {
                assert(t[i] == u[i - 1]);
            }
            if i > run {
                assert(t[i] == a[i - 1 - run]);
            }
            if i + 1 < m && i + 1 > run {
                assert(t[i + 1] == a[i - run]);
            }
        }
        assert(is_atext(t[m - 1])) by {
            if m - 1 > run {
                assert(t[m - 1] == a[m - 2 - run]);
            } else {
                assert(t[m - 1] == u[m - 2]);
            }
        }
    } else {
        assert(t.skip(0) =~= t);
    }
}

/// The text of a dot-atom is a front of the input, taken as it stands, and has the
/// shape of one: it neither begins nor ends with a dot and holds no two dots in a
/// row. It is the longest such front: what is left begins neither with an atom
/// character nor with a dot that an atom character follows.
pub proof fn lemma_dot_atom_text(s: Seq<char>)
    ensures
        match spec_dot_atom_text(s) {
            Outcome::Match { value, rest } => {
                &&& is_suffix(rest, s)
                &&& rest.len() < s.len()
                &&& value + rest == s
                &&& is_dot_atom_text(value)
                &&& rest.len() > 0 ==> !is_atext(rest[0])
                &&& !(rest.len() > 1 && rest[0] == '.' && is_atext(rest[1]))
            },
            Outcome::Fail(f) => f == no_match(s, ErrorKind::OneOf),
        },
{
    if s.len() > 0 && is_atext(s[0]) {
        let a = after_atext(s);
        let r = after_dot_parts(a);
        lemma_after_atext(s);
        lemma_after_dot_parts(a);
        lemma_suffix_trans(r, a, s);
        let run = s.len() - a.len();
        let v = consumed(s, r);
        assert(v + r =~= s);
        assert forall|i: int| 0 <= i < v.len() implies (is_atext(#[trigger] v[i]) || v[i] == '.')
            && (i < v.len() - 1 ==> !(v[i] == '.' && v[i + 1] == '.')) by {
            if i >= run {
                assert(v[i] == a[i - run]);
            }
            if i + 1 < v.len() && i + 1 >= run {
                assert(v[i + 1] == a[i + 1 - run]);
            }
        }
        assert(v.last() != '.') by {
            if v.len() > run {
                assert(v[v.len() - 1] == a[v.len() - 1 - run]);
            }
        }
    }
}

/// The content of a dot-atom has the shape of a dot-atom's text, so it holds no white
/// space and no parenthesis, and no dot at either end or beside another. What is left
/// of the input is a suffix of it, and so is the unread text of a failure.
pub proof fn lemma_dot_atom(s: Seq<char>)
    ensures
        match spec_dot_atom(s) {
            Outcome::Match { value, rest } => is_suffix(rest, s) && rest.len() < s.len()
                && is_dot_atom_text(value.content),
            Outcome::Fail(f) => is_suffix(f.input, s),
        },
{
    lemma_opt_cfws(s);
    if let Outcome::Match { value: pre_comment, rest: body } = spec_opt_cfws(s) {
        lemma_dot_atom_text(body);
        if let Outcome::Match { rest: tail, .. } = spec_dot_atom_text(body) {
            lemma_suffix_trans(tail, body, s);
            lemma_opt_cfws(tail);
            match spec_opt_cfws(tail) {
                Outcome::Match { rest, .. } => {
                    lemma_suffix_trans(rest, tail, s);
                },
                Outcome::Fail(f) => {
                    lemma_suffix_trans(f.input, tail, s);
                },
            }
        }
    }
}

} // verus!
