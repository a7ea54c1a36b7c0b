//! What holds of folding white space, quoted pairs and comments as `comment_model`
//! defines them.

use crate::class::{is_ctext, is_wsp};
use crate::failure::{fatal, no_match, ErrorKind, Outcome, Severity};
use crate::text::{is_suffix, lemma_skip_is_suffix, lemma_suffix_trans, starts_with};
use crate::token::comment_model::{
    after_opt_fws, after_wsp, fold_space, is_comment_text, is_white_space, line_break,
    spec_ccontent, spec_ccontents, spec_cfws, spec_comment, spec_comment_end,
    spec_comment_ends, spec_comments, spec_fws, spec_quoted_pair, with_text,
};
use vstd::prelude::*;

verus! {

/// `after_wsp` drops a front of spaces and tabs, and stops at the first other character.
pub proof fn lemma_after_wsp(s: Seq<char>)
    ensures
        is_suffix(after_wsp(s), s),
        forall|i: int| 0 <= i < s.len() - after_wsp(s).len() ==> is_wsp(#[trigger] s[i]),
        after_wsp(s).len() > 0 ==> !is_wsp(after_wsp(s)[0]),
        s.len() > 0 && is_wsp(s[0]) ==> after_wsp(s).len() < s.len(),
    decreases s.len(),
{
    if s.len() > 0 && is_wsp(s[0]) {
        let t = s.skip(1);
        lemma_after_wsp(t);
        lemma_skip_is_suffix(s, 1);
        lemma_suffix_trans(after_wsp(t), t, s);
        assert forall|i: int| 0 <= i < s.len() - after_wsp(s).len() implies is_wsp(
            #[trigger] s[i],
        ) by {
            if i > 0 {
                assert(s[i] == t[i - 1]);
            }
        }
    } else {
        assert(s.skip(0) =~= s);
    }
}

/// Folding white space is the front of the input as it stands and takes at least one
/// character of it; it can only fail as no match, at a place inside the input.
pub proof fn lemma_fws(s: Seq<char>)
    ensures
        match spec_fws(s) {
            Outcome::Match { value, rest } => is_suffix(rest, s) && rest.len() < s.len()
                && value + rest == s,
            Outcome::Fail(f) => is_suffix(f.input, s) && f.severity == Severity::NoMatch,
        },
{
    let fold = after_wsp(s);
    lemma_after_wsp(s);
    if starts_with(fold, line_break()) {
        let tail = fold.skip(2);
        lemma_skip_is_suffix(fold, 2);
        lemma_suffix_trans(tail, fold, s);
        lemma_after_wsp(tail);
        lemma_suffix_trans(after_wsp(tail), tail, s);
    } else {
        assert(s.skip(0) =~= s);
    }
    if let Outcome::Match { value, rest } = spec_fws(s) {
        assert(value + rest =~= s);
    }
}

/// A quoted pair takes two characters and stands for the second of them. It is fatal
/// exactly when the input is a backslash and nothing more.
pub proof fn lemma_quoted_pair(s: Seq<char>)
    ensures
        match spec_quoted_pair(s) {
            Outcome::Match { value, rest } => is_suffix(rest, s) && rest.len() + 2 == s.len()
                && value == seq![s[1]],
            Outcome::Fail(f) => is_suffix(f.input, s) && (f.severity == Severity::Fatal <==> s
                == seq!['\\']),
        },
{
    assert(s.skip(0) =~= s);
    if s.len() > 0 {
        lemma_skip_is_suffix(s, 1);
    }
    if s.len() > 1 {
        lemma_skip_is_suffix(s, 2);
        assert(s.subrange(1, 2) =~= seq![s[1]]);
    }
    if s.len() == 1 && s[0] == '\\' {
        assert(s =~= seq!['\\']);
    }
}

/// Text put in front of an outcome twice is the two texts joined, put in front once.
pub proof fn lemma_with_text_twice(a: Seq<char>, b: Seq<char>, o: Outcome<Seq<char>>)
    ensures
        with_text(a, with_text(b, o)) == with_text(a + b, o),
{
    if let Outcome::Match { value, rest } = o {
        assert(a + (b + value) =~= (a + b) + value);
    }
}

/// What is behind optional folding white space is a suffix of the input.
pub proof fn lemma_after_opt_fws(s: Seq<char>)
    ensures
        is_suffix(after_opt_fws(s), s),
{
    lemma_fws(s);
    assert(s.skip(0) =~= s);
}

/// A content consumes at least one character and stands for at least one; where it is
/// no match, the failure is at the front of the input.
pub proof fn lemma_ccontent(s: Seq<char>)
    ensures
        match spec_ccontent(s) {
            Outcome::Match { value, rest } => is_suffix(rest, s) && rest.len() < s.len()
                && value.len() > 0,
            Outcome::Fail(f) => is_suffix(f.input, s) && (f.severity == Severity::NoMatch ==> f
                == no_match(s, ErrorKind::Tag)),
        },
    decreases s.len(), 1nat,
{
    if s.len() > 0 && is_ctext(s[0]) {
        lemma_skip_is_suffix(s, 1);
    } else {
        match spec_quoted_pair(s) {
            Outcome::Match { .. } => {
                lemma_skip_is_suffix(s, 2);
            },
            Outcome::Fail(f) => {
                if f.severity == Severity::Fatal {
                    lemma_skip_is_suffix(s, 1);
                } else {
                    lemma_comment(s);
                }
            },
        }
    }
}

/// The contents of a comment end inside the input, and fail only fatally.
pub proof fn lemma_ccontents(s: Seq<char>)
    ensures
        match spec_ccontents(s) {
            Outcome::Match { value, rest } => is_suffix(rest, s),
            Outcome::Fail(f) => f.severity == Severity::Fatal && is_suffix(f.input, s),
        },
    decreases s.len(), 2nat,
{
    let item = after_opt_fws(s);
    lemma_after_opt_fws(s);
    lemma_ccontent(item);
    assert(s.skip(0) =~= s);
    match spec_ccontent(item) {
        Outcome::Fail(f) => {
            lemma_suffix_trans(f.input, item, s);
        },
        Outcome::Match { value, rest } => {
            lemma_suffix_trans(rest, item, s);
            lemma_ccontents(rest);
            match spec_ccontents(rest) {
                Outcome::Match { rest: end, .. } => {
                    lemma_suffix_trans(end, rest, s);
                },
                Outcome::Fail(f) => {
                    lemma_suffix_trans(f.input, rest, s);
                },
            }
        },
    }
}

/// What closes a comment takes at least the closing parenthesis, which is the last
/// character of its value, and fails only fatally.
pub proof fn lemma_comment_end(s: Seq<char>)
    ensures
        match spec_comment_end(s) {
            Outcome::Match { value, rest } => is_suffix(rest, s) && rest.len() < s.len()
                && value.len() > 0 && value.last() == ')',
            Outcome::Fail(f) => f.severity == Severity::Fatal && is_suffix(f.input, s),
        },
    decreases s.len(), 3nat,
{
    lemma_ccontents(s);
    if let Outcome::Match { value, rest } = spec_ccontents(s) {
        let close = after_opt_fws(rest);
        lemma_after_opt_fws(rest);
        lemma_suffix_trans(close, rest, s);
        if close.len() > 0 && close[0] == ')' {
            lemma_skip_is_suffix(close, 1);
            lemma_suffix_trans(close.skip(1), close, s);
        }
    }
}

/// A comment consumes at least its two parentheses, and its value begins with an
/// opening and ends with a closing parenthesis. It is no match exactly when the input
/// does not begin with an opening parenthesis, and every other failure is fatal.
pub proof fn lemma_comment(s: Seq<char>)
    ensures
        match spec_comment(s) {
            Outcome::Match { value, rest } => is_suffix(rest, s) && rest.len() + 2 <= s.len()
                && is_comment_text(value),
            Outcome::Fail(f) => is_suffix(f.input, s) && (f.severity == Severity::NoMatch <==> s.len()
                == 0 || s[0] != '(') && (f.severity == Severity::NoMatch ==> f == no_match(
                s,
                ErrorKind::Tag,
            )),
        },
    decreases s.len(), 0nat,
{
    assert(s.skip(0) =~= s);
    if s.len() > 0 && s[0] == '(' {
        let inner = s.skip(1);
        lemma_skip_is_suffix(s, 1);
        lemma_comment_end(inner);
        match spec_comment_end(inner) {
            Outcome::Fail(f) => {
                lemma_suffix_trans(f.input, inner, s);
            },
            Outcome::Match { value, rest } => {
                lemma_suffix_trans(rest, inner, s);
            },
        }
    }
}

/// One open comment is closed by what closes a comment.
pub proof fn lemma_comment_ends_one(s: Seq<char>)
    ensures
        spec_comment_ends(s, 1) == spec_comment_end(s),
{
    if let Outcome::Match { value, rest } = spec_comment_end(s) {
        assert(spec_comment_ends(rest, 0) == Outcome::Match { value: Seq::<char>::empty(), rest });
        assert(value + Seq::<char>::empty() =~= value);
    }
}

/// Where a content stands at the front of open comments, behind white space or not,
/// it is the first thing that they still hold.
pub proof fn lemma_comment_ends_content(s: Seq<char>, depth: nat)
    requires
        depth > 0,
        spec_ccontent(after_opt_fws(s)) is Match,
    ensures
        spec_comment_ends(s, depth) == with_text(
            fold_space(s) + spec_ccontent(after_opt_fws(s))->value,
            spec_comment_ends(spec_ccontent(after_opt_fws(s))->rest, depth),
        ),
{
    let item = after_opt_fws(s);
    let piece = spec_ccontent(item)->value;
    let rest = spec_ccontent(item)->rest;
    let text = fold_space(s) + piece;
    lemma_after_opt_fws(s);
    lemma_ccontent(item);
    assert(spec_ccontents(s) == with_text(text, spec_ccontents(rest)));
    assert(spec_comment_end(s) == with_text(text, spec_comment_end(rest))) by {
        if let Outcome::Match { value, rest: end } = spec_ccontents(rest) {
            assert((text + value) + seq![')'] =~= text + (value + seq![')']));
        }
    }
    if let Outcome::Match { value, rest: end } = spec_comment_end(rest) {
        lemma_with_text_twice(text, value, spec_comment_ends(end, (depth - 1) as nat));
    }
}

/// Where an opening parenthesis stands at the front of open comments, behind white
/// space or not, one more comment is open behind it.
pub proof fn lemma_comment_ends_open(s: Seq<char>, depth: nat)
    requires
        depth > 0,
        after_opt_fws(s).len() > 0,
        after_opt_fws(s)[0] == '(',
    ensures
        spec_comment_ends(s, depth) == with_text(
            fold_space(s) + seq!['('],
            spec_comment_ends(after_opt_fws(s).skip(1), depth + 1),
        ),
{
    let item = after_opt_fws(s);
    let inner = item.skip(1);
    let open = seq!['('];
    assert(spec_ccontent(item) == spec_comment(item));
    lemma_comment_end(inner);
    match spec_comment_end(inner) {
        Outcome::Fail(f) => {
            assert(spec_ccontents(s) == Outcome::<Seq<char>>::Fail(f));
        },
        Outcome::Match { value, rest } => {
            lemma_comment_ends_content(s, depth);
            lemma_with_text_twice(fold_space(s) + open, value, spec_comment_ends(rest, depth));
            assert(fold_space(s) + (open + value) =~= (fold_space(s) + open) + value);
        },
    }
}

/// Where no content stands at the front of open comments, behind white space or not,
/// the innermost of them is closed there by a closing parenthesis, and is unclosed
/// without one.
pub proof fn lemma_comment_ends_close(s: Seq<char>, depth: nat)
    requires
        depth > 0,
        spec_ccontent(after_opt_fws(s)) matches Outcome::Fail(f) && f.severity
            == Severity::NoMatch,
    ensures
        spec_comment_ends(s, depth) == if after_opt_fws(s).len() > 0 && after_opt_fws(s)[0]
            == ')' {
            with_text(seq![')'], spec_comment_ends(after_opt_fws(s).skip(1), (depth - 1) as nat))
        } else {
            Outcome::Fail(fatal(after_opt_fws(s), ErrorKind::Tag))
        },
{
    assert(spec_ccontents(s) == Outcome::Match { value: Seq::<char>::empty(), rest: s });
    assert(Seq::<char>::empty() + seq![')'] =~= seq![')']);
}

/// A run of comments ends inside the input, has consumed something exactly when a
/// comment stands at its front, and fails only fatally.
pub proof fn lemma_comments(s: Seq<char>)
    ensures
        match spec_comments(s) {
            Outcome::Match { value, rest } => is_suffix(rest, s) && (rest.len() < s.len()
                <==> spec_comment(after_opt_fws(s)) is Match),
            Outcome::Fail(f) => f.severity == Severity::Fatal && is_suffix(f.input, s),
        },
    decreases s.len(),
{
    let item = after_opt_fws(s);
    lemma_after_opt_fws(s);
    lemma_comment(item);
    assert(s.skip(0) =~= s);
    match spec_comment(item) {
        Outcome::Fail(f) => {
            lemma_suffix_trans(f.input, item, s);
        },
        Outcome::Match { value, rest } => {
            lemma_suffix_trans(rest, item, s);
            lemma_comments(rest);
            match spec_comments(rest) {
                Outcome::Match { rest: end, .. } => {
                    lemma_suffix_trans(end, rest, s);
                },
                Outcome::Fail(f) => {
                    lemma_suffix_trans(f.input, rest, s);
                },
            }
        },
    }
}

/// Comments and folding white space consume at least one character and stand for at
/// least one, and a failure lies inside the input.
pub proof fn lemma_cfws(s: Seq<char>)
    ensures
        match spec_cfws(s) {
            Outcome::Match { value, rest } => is_suffix(rest, s) && rest.len() < s.len()
                && value.len() > 0,
            Outcome::Fail(f) => is_suffix(f.input, s),
        },
{
    let item = after_opt_fws(s);
    lemma_after_opt_fws(s);
    lemma_comment(item);
    lemma_fws(s);
    lemma_comments(s);
    match spec_comment(item) {
        Outcome::Fail(f) => {
            lemma_suffix_trans(f.input, item, s);
        },
        Outcome::Match { .. } => {
            if let Outcome::Match { value, rest } = spec_comments(s) {
                lemma_fws(rest);
                if let Outcome::Match { rest: end, .. } = spec_fws(rest) {
                    lemma_suffix_trans(end, rest, s);
                }
            }
        },
    }
}

/// Text that is folding white space from end to end, whatever it is made of, is
/// consumed whole and stands for exactly one space.
pub proof fn lemma_cfws_of_white_space(s: Seq<char>)
    requires
        is_white_space(s),
    ensures
        spec_cfws(s) == (Outcome::Match { value: seq![' '], rest: Seq::empty() }),
{
    assert(after_opt_fws(s) =~= Seq::empty());
}

/// What white space stands for stands for itself: where the input is folding white
/// space from end to end, its value is consumed whole in turn and has the same value,
/// one space.
pub proof fn lemma_cfws_idempotent(s: Seq<char>)
    requires
        is_white_space(s),
    ensures
        spec_cfws(s) matches Outcome::Match { value, .. } && is_white_space(value)
            && spec_cfws(value) == (Outcome::Match { value, rest: Seq::empty() }),
{
    lemma_cfws_of_white_space(s);
    let space = seq![' '];
    assert(after_wsp(space.skip(1)) =~= Seq::empty());
    assert(after_wsp(space) =~= Seq::empty());
    lemma_cfws_of_white_space(space);
}

} // verus!
