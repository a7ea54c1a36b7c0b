//! The parentheses of a comment's value balance, as long as none of them was escaped.

use crate::class::is_ctext;
use crate::failure::Outcome;
use crate::text::{is_suffix, lemma_skip_is_suffix, lemma_suffix_trans};
use crate::token::comment_laws::{
    lemma_after_opt_fws, lemma_ccontent, lemma_ccontents, lemma_comment_end,
};
use crate::token::comment_model::{
    after_opt_fws, fold_space, spec_ccontent, spec_ccontents, spec_comment, spec_comment_end,
    spec_quoted_pair,
};
use vstd::prelude::*;

verus! {

/// What one character adds to the number of parentheses that stand open.
pub open spec fn paren_step(c: char) -> int {
    if c == '(' {
        1
    } else if c == ')' {
        -1
    } else {
        0
    }
}

/// The number of opening parentheses of `v`, less the number of its closing ones.
pub open spec fn paren_depth(v: Seq<char>) -> int
    decreases v.len(),
{
    if v.len() == 0 {
        0
    } else {
        paren_depth(v.drop_last()) + paren_step(v.last())
    }
}

/// Every closing parenthesis of `v` closes an opening one before it, and none stays
/// open.
pub open spec fn balanced(v: Seq<char>) -> bool {
    &&& paren_depth(v) == 0
    &&& forall|k: int| 0 <= k <= v.len() ==> paren_depth(#[trigger] v.take(k)) >= 0
}

/// No backslash stands in the front of `s` that lies before its suffix `rest`.
pub open spec fn unescaped(s: Seq<char>, rest: Seq<char>) -> bool {
    forall|i: int| 0 <= i < s.len() - rest.len() ==> s[i] != '\\'
}

/// The depth of two texts joined is the sum of their depths.
pub proof fn lemma_depth_concat(a: Seq<char>, b: Seq<char>)
    ensures
        paren_depth(a + b) == paren_depth(a) + paren_depth(b),
    decreases b.len(),
{
    if b.len() == 0 {
        assert(a + b =~= a);
    } else {
        lemma_depth_concat(a, b.drop_last());
        assert((a + b).drop_last() =~= a + b.drop_last());
    }
}

/// The depth of a text of one character.
pub proof fn lemma_depth_one(c: char)
    ensures
        paren_depth(seq![c]) == paren_step(c),
{
    let v = seq![c];
    assert(v.len() == 1 && v.last() == c);
    assert(v.drop_last() =~= Seq::<char>::empty());
    assert(paren_depth(v.drop_last()) == 0);
}

/// Two balanced texts joined are balanced.
pub proof fn lemma_balanced_concat(a: Seq<char>, b: Seq<char>)
    requires
        balanced(a),
        balanced(b),
    ensures
        balanced(a + b),
{
    lemma_depth_concat(a, b);
    assert forall|k: int| 0 <= k <= (a + b).len() implies paren_depth(
        #[trigger] (a + b).take(k),
    ) >= 0 by {
        if k <= a.len() {
            assert((a + b).take(k) =~= a.take(k));
        } else {
            assert((a + b).take(k) =~= a + b.take(k - a.len()));
            lemma_depth_concat(a, b.take(k - a.len()));
        }
    }
}

/// A text without parentheses of at most one character is balanced.
pub proof fn lemma_balanced_plain(v: Seq<char>)
    requires
        v.len() <= 1,
        v.len() == 1 ==> v[0] != '(' && v[0] != ')',
    ensures
        balanced(v),
{
    if v.len() == 1 {
        assert(v =~= seq![v[0]]);
        lemma_depth_one(v[0]);
    }
    assert forall|k: int| 0 <= k <= v.len() implies paren_depth(#[trigger] v.take(k)) >= 0 by {
        if k == 1 {
            assert(v.take(k) =~= v);
        }
    }
}

/// A balanced text between two parentheses is balanced.
pub proof fn lemma_balanced_wrap(v: Seq<char>)
    requires
        balanced(v),
    ensures
        balanced(seq!['('] + v + seq![')']),
{
    let open = seq!['('];
    let close = seq![')'];
    let w = open + v + close;
    lemma_depth_one('(');
    lemma_depth_one(')');
    lemma_depth_concat(open, v);
    lemma_depth_concat(open + v, close);
    assert forall|k: int| 0 <= k <= w.len() implies paren_depth(#[trigger] w.take(k)) >= 0 by {
        if k == 0 {
        } else if k <= v.len() + 1 {
            assert(w.take(k) =~= open + v.take(k - 1));
            lemma_depth_concat(open, v.take(k - 1));
        } else {
            assert(w.take(k) =~= w);
        }
    }
}

/// A part of an unescaped front is unescaped.
proof fn lemma_unescaped_part(s: Seq<char>, t: Seq<char>, mid: Seq<char>, rest: Seq<char>)
    requires
        is_suffix(t, s),
        is_suffix(mid, t),
        is_suffix(rest, mid),
        unescaped(s, rest),
    ensures
        unescaped(t, mid),
{
    let off = s.len() - t.len();
    assert forall|i: int| 0 <= i < t.len() - mid.len() implies t[i] != '\\' by {
        assert(t[i] == s.skip(off)[i]);
        assert(s[off + i] != '\\');
    }
}

/// The value of a content is balanced where no backslash was read.
pub proof fn lemma_balanced_ccontent(s: Seq<char>)
    requires
        spec_ccontent(s) matches Outcome::Match { rest, .. } && unescaped(s, rest),
    ensures
        spec_ccontent(s) matches Outcome::Match { value, .. } && balanced(value),
    decreases s.len(), 1nat,
{
    if s.len() > 0 && is_ctext(s[0]) {
        lemma_balanced_plain(s.take(1));
    } else if spec_quoted_pair(s) is Match {
        assert(s[0] == '\\');
    } else {
        lemma_balanced_comment(s);
    }
}

/// The value of a comment's contents is balanced where no backslash was read.
pub proof fn lemma_balanced_ccontents(s: Seq<char>)
    requires
        spec_ccontents(s) matches Outcome::Match { rest, .. } && unescaped(s, rest),
    ensures
        spec_ccontents(s) matches Outcome::Match { value, .. } && balanced(value),
    decreases s.len(), 2nat,
{
    let item = after_opt_fws(s);
    let end = spec_ccontents(s)->rest;
    lemma_after_opt_fws(s);
    lemma_ccontent(item);
    assert(s.skip(0) =~= s);
    match spec_ccontent(item) {
        Outcome::Fail(f) => {
            lemma_balanced_plain(Seq::empty());
        },
        Outcome::Match { value, rest } => {
            lemma_suffix_trans(rest, item, s);
            lemma_ccontents(rest);
            lemma_unescaped_part(s, item, rest, end);
            assert(end.skip(0) =~= end);
            lemma_unescaped_part(s, rest, end, end);
            lemma_balanced_ccontent(item);
            lemma_balanced_ccontents(rest);
            lemma_balanced_plain(fold_space(s));
            lemma_balanced_concat(fold_space(s), value);
            lemma_balanced_concat(fold_space(s) + value, spec_ccontents(rest)->value);
        },
    }
}

/// What closes a comment is balanced contents and the closing parenthesis, where no
/// backslash was read.
pub proof fn lemma_balanced_comment_end(s: Seq<char>)
    requires
        spec_comment_end(s) matches Outcome::Match { rest, .. } && unescaped(s, rest),
    ensures
        spec_comment_end(s) matches Outcome::Match { value, .. } && value.len() > 0
            && value.last() == ')' && balanced(value.drop_last()),
    decreases s.len(), 3nat,
{
    let end = spec_comment_end(s)->rest;
    let inner = spec_ccontents(s)->value;
    let mid = spec_ccontents(s)->rest;
    let close = after_opt_fws(mid);
    lemma_ccontents(s);
    lemma_after_opt_fws(mid);
    lemma_skip_is_suffix(close, 1);
    lemma_suffix_trans(end, close, mid);
    assert(s.skip(0) =~= s);
    lemma_unescaped_part(s, s, mid, end);
    lemma_balanced_ccontents(s);
    assert((inner + seq![')']).drop_last() =~= inner);
}

/// The parentheses of a comment's value balance, where no backslash was read: the
/// value has as many opening as closing parentheses, and no closing one before the
/// opening one that it closes.
pub proof fn lemma_balanced_comment(s: Seq<char>)
    requires
        spec_comment(s) matches Outcome::Match { rest, .. } && unescaped(s, rest),
    ensures
        spec_comment(s) matches Outcome::Match { value, .. } && balanced(value),
    decreases s.len(), 0nat,
{
    let inner = s.skip(1);
    let end = spec_comment(s)->rest;
    let tail = spec_comment_end(inner)->value;
    lemma_skip_is_suffix(s, 1);
    lemma_comment_end(inner);
    assert(end.skip(0) =~= end);
    lemma_unescaped_part(s, inner, end, end);
    lemma_balanced_comment_end(inner);
    lemma_balanced_wrap(tail.drop_last());
    assert(seq!['('] + tail =~= seq!['('] + tail.drop_last() + seq![')']);
}

} // verus!
