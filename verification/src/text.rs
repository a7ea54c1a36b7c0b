//! Fronts and suffixes of a sequence of characters.

use vstd::prelude::*;
use vstd::utf8::encode_utf8;

verus! {

/// `rest` is what is left of `s` when some characters are taken from its front.
pub open spec fn is_suffix(rest: Seq<char>, s: Seq<char>) -> bool {
    rest.len() <= s.len() && s.skip(s.len() - rest.len()) == rest
}

/// The front of `s` that lies before its suffix `rest`.
pub open spec fn consumed(s: Seq<char>, rest: Seq<char>) -> Seq<char> {
    s.take(s.len() - rest.len())
}

/// `p` stands at the front of `s`.
pub open spec fn starts_with(s: Seq<char>, p: Seq<char>) -> bool {
    p.len() <= s.len() && s.take(p.len() as int) == p
}

/// A suffix of a suffix is a suffix.
pub proof fn lemma_suffix_trans(a: Seq<char>, b: Seq<char>, c: Seq<char>)
    requires
        is_suffix(a, b),
        is_suffix(b, c),
    ensures
        is_suffix(a, c),
{
    assert(c.skip(c.len() - b.len()).skip(b.len() - a.len()) =~= c.skip(c.len() - a.len()));
}

/// What is left when `n` characters are dropped is a suffix.
pub proof fn lemma_skip_is_suffix(s: Seq<char>, n: int)
    requires
        0 <= n <= s.len(),
    ensures
        is_suffix(s.skip(n), s),
        s.skip(n).len() == s.len() - n,
{
}

/// A sequence is the front before a suffix, followed by that suffix.
pub proof fn lemma_consumed_then_rest(s: Seq<char>, rest: Seq<char>)
    requires
        is_suffix(rest, s),
    ensures
        consumed(s, rest) + rest == s,
        consumed(s, rest).len() == s.len() - rest.len(),
{
    assert(consumed(s, rest) + rest =~= s);
}

/// A text of one character stands at the front of `s` exactly when `s` begins with
/// that character.
pub proof fn lemma_starts_with_char(s: Seq<char>, p: Seq<char>)
    requires
        p.len() == 1,
    ensures
        starts_with(s, p) <==> s.len() > 0 && s[0] == p[0],
        starts_with(s, p) ==> s.take(1) == p,
{
    if s.len() > 0 {
        assert(s.take(1)[0] == s[0]);
        if s[0] == p[0] {
            assert(s.take(1) =~= p);
        }
    }
}

/// The UTF-8 encoding of a text has at least one byte for each character.
pub proof fn lemma_encoding_len(chars: Seq<char>)
    ensures
        chars.len() <= encode_utf8(chars).len(),
    decreases chars.len(),
{
    if chars.len() > 0 {
        lemma_encoding_len(chars.drop_first());
    }
}

/// The length of `s` in bytes, which bounds its length in characters.
pub(crate) fn byte_len(s: &str) -> (n: usize)
    ensures
        s@.len() <= n,
{
    proof {
        lemma_encoding_len(s@);
    }
    s.as_bytes().len()
}

/// Taking one more character from a suffix lengthens the front before it by that
/// character.
pub proof fn lemma_consumed_step(s: Seq<char>, rest: Seq<char>)
    requires
        is_suffix(rest, s),
        rest.len() > 0,
    ensures
        is_suffix(rest.skip(1), s),
        consumed(s, rest.skip(1)) == consumed(s, rest) + rest.take(1),
{
    lemma_skip_is_suffix(rest, 1);
    lemma_suffix_trans(rest.skip(1), rest, s);
    assert(consumed(s, rest.skip(1)) =~= consumed(s, rest) + rest.take(1));
}

/// The UTF-8 encoding of two texts joined is their encodings joined.
pub proof fn lemma_encoding_concat(a: Seq<char>, b: Seq<char>)
    ensures
        encode_utf8(a + b) == encode_utf8(a) + encode_utf8(b),
    decreases a.len(),
{
    if a.len() == 0 {
        assert(a + b =~= b);
        assert(encode_utf8(a) + encode_utf8(b) =~= encode_utf8(b));
    } else {
        lemma_encoding_concat(a.drop_first(), b);
        assert((a + b).drop_first() =~= a.drop_first() + b);
        assert(encode_utf8(a + b) =~= encode_utf8(a) + encode_utf8(b));
    }
}

/// Where the unread text `rest` is found in `whole`, in bytes from its beginning;
/// `None` where `rest` is the longer of the two.
pub open spec fn byte_offset(whole: Seq<char>, rest: Seq<char>) -> Option<usize> {
    if encode_utf8(rest).len() <= encode_utf8(whole).len() {
        Some((encode_utf8(whole).len() - encode_utf8(rest).len()) as usize)
    } else {
        None
    }
}

/// The offset of a suffix is the length in bytes of the front before it.
pub proof fn lemma_byte_offset(whole: Seq<char>, rest: Seq<char>)
    requires
        is_suffix(rest, whole),
        encode_utf8(whole).len() <= usize::MAX,
    ensures
        byte_offset(whole, rest) == Some(encode_utf8(consumed(whole, rest)).len() as usize),
{
    lemma_consumed_then_rest(whole, rest);
    lemma_encoding_concat(consumed(whole, rest), rest);
}

} // verus!
