//! The classes of characters that the grammar is built from.

use vstd::prelude::*;
use vstd::utf8::{encode_utf8, is_ascii_chars_encode_utf8};

verus! {

/// A visible character of US-ASCII: `!` to `~`.
pub open spec fn is_vchar(c: char) -> bool {
    '!' <= c <= '~'
}

/// A space or a horizontal tab.
pub open spec fn is_wsp(c: char) -> bool {
    c == ' ' || c == '\t'
}

/// A character that may stand by itself inside a comment: a visible character other
/// than the two parentheses and the backslash.
pub open spec fn is_ctext(c: char) -> bool {
    is_vchar(c) && c != '(' && c != ')' && c != '\\'
}

/// A delimiter of the grammar.
pub open spec fn is_special(c: char) -> bool {
    c == '(' || c == ')' || c == '<' || c == '>' || c == '[' || c == ']' || c == ':' || c == ';'
        || c == '@' || c == '\\' || c == ',' || c == '.' || c == '"'
}

/// A character of an atom: a letter, a digit, or one of
/// ``! # $ % & ' * + - / = ? ^ _ ` { | } ~``.
pub open spec fn is_atext(c: char) -> bool {
    ('a' <= c <= 'z') || ('A' <= c <= 'Z') || ('0' <= c <= '9') || c == '!' || c == '#' || c
        == '$' || c == '%' || c == '&' || c == '\'' || c == '*' || c == '+' || c == '-' || c == '/'
        || c == '=' || c == '?' || c == '^' || c == '_' || c == '`' || c == '{' || c == '|' || c
        == '}' || c == '~'
}

/// The visible characters, in the order of their codes.
pub fn vchar_table() -> (t: &'static str)
    ensures
        forall|c: char| t@.contains(c) <==> is_vchar(c),
{
    let t = "!\"#$%&'()*+,-./0123456789:;<=>?@ABCDEFGHIJKLMNOPQRSTUVWXYZ[\\]^_`abcdefghijklmnopqrstuvwxyz{|}~";
    proof {
        reveal_strlit("!\"#$%&'()*+,-./0123456789:;<=>?@ABCDEFGHIJKLMNOPQRSTUVWXYZ[\\]^_`abcdefghijklmnopqrstuvwxyz{|}~");
        assert(t@.len() == 94);
        assert forall|i: int| 0 <= i < 94 implies t@[i] as int == i + 0x21 by {}
        assert forall|c: char| is_vchar(c) implies t@.contains(c) by {
            assert(t@[c as int - 0x21] == c);
        }
    }
    t
}

/// The characters that may stand by themselves inside a comment.
pub fn ctext_table() -> (t: &'static str)
    ensures
        forall|c: char| t@.contains(c) <==> is_ctext(c),
{
    let t = "!\"#$%&'*+,-./0123456789:;<=>?@ABCDEFGHIJKLMNOPQRSTUVWXYZ[]^_`abcdefghijklmnopqrstuvwxyz{|}~";
    proof {
        reveal_strlit("!\"#$%&'*+,-./0123456789:;<=>?@ABCDEFGHIJKLMNOPQRSTUVWXYZ[]^_`abcdefghijklmnopqrstuvwxyz{|}~");
        assert(t@.len() == 91);
        assert forall|i: int| 0 <= i < 91 implies is_ctext(#[trigger] t@[i]) by {}
        assert forall|c: char| is_ctext(c) implies t@.contains(c) by {
            let code: int = c as int;
            let i: int = if code <= 0x27 {
                code - 0x21
            } else if code <= 0x5b {
                code - 0x23
            } else {
                code - 0x24
            };
            assert(t@[i] == c);
        }
    }
    t
}

/// The characters of an atom: digits, capitals, small letters, punctuation.
pub fn atext_table() -> (t: &'static str)
    ensures
        forall|c: char| t@.contains(c) <==> is_atext(c),
{
    let t = "0123456789ABCDEFGHIJKLMNOPQRSTUVWXYZabcdefghijklmnopqrstuvwxyz!#$%&'*+-/=?^_`{|}~";
    proof {
        reveal_strlit("0123456789ABCDEFGHIJKLMNOPQRSTUVWXYZabcdefghijklmnopqrstuvwxyz!#$%&'*+-/=?^_`{|}~");
        assert(t@.len() == 81);
        assert forall|i: int| 0 <= i < 81 implies is_atext(#[trigger] t@[i]) by {}
        assert forall|c: char| is_atext(c) implies t@.contains(c) by {
            if '0' <= c <= '9' {
                assert(t@[c as int - 0x30] == c);
            } else if 'A' <= c <= 'Z' {
                assert(t@[c as int - 0x41 + 10] == c);
            } else if 'a' <= c <= 'z' {
                assert(t@[c as int - 0x61 + 36] == c);
            } else {
                let i: int = if c == '!' {
                    62
                } else if c == '#' {
                    63
                } else if c == '$' {
                    64
                } else if c == '%' {
                    65
                } else if c == '&' {
                    66
                } else if c == '\'' {
                    67
                } else if c == '*' {
                    68
                } else if c == '+' {
                    69
                } else if c == '-' {
                    70
                } else if c == '/' {
                    71
                } else if c == '=' {
                    72
                } else if c == '?' {
                    73
                } else if c == '^' {
                    74
                } else if c == '_' {
                    75
                } else if c == '`' {
                    76
                } else if c == '{' {
                    77
                } else if c == '|' {
                    78
                } else if c == '}' {
                    79
                } else {
                    80
                };
                assert(t@[i] == c);
            }
        }
    }
    t
}

/// The delimiters.
pub fn special_table() -> (t: &'static str)
    ensures
        forall|c: char| t@.contains(c) <==> is_special(c),
{
    let t = "()<>[]:;@\\,.\"";
    proof {
        reveal_strlit("()<>[]:;@\\,.\"");
        assert(t@.len() == 13);
        assert forall|i: int| 0 <= i < 13 implies is_special(#[trigger] t@[i]) by {}
        assert forall|c: char| is_special(c) implies t@.contains(c) by {
            let i: int = if c == '(' {
                0
            } else if c == ')' {
                1
            } else if c == '<' {
                2
            } else if c == '>' {
                3
            } else if c == '[' {
                4
            } else if c == ']' {
                5
            } else if c == ':' {
                6
            } else if c == ';' {
                7
            } else if c == '@' {
                8
            } else if c == '\\' {
                9
            } else if c == ',' {
                10
            } else if c == '.' {
                11
            } else {
                12
            };
            assert(t@[i] == c);
        }
    }
    t
}

/// The atom characters are the visible characters that are no delimiters: no
/// delimiter, no space and no tab is an atom character.
pub proof fn lemma_atext_class(c: char)
    ensures
        is_atext(c) <==> is_vchar(c) && !is_special(c),
        is_special(c) ==> !is_atext(c),
        is_wsp(c) ==> !is_atext(c),
{
}

/// A space or a tab is no visible character, and so belongs to no other class; the
/// characters of `ctext` and the delimiters are visible characters.
pub proof fn lemma_wsp_class(c: char)
    ensures
        is_wsp(c) ==> !is_vchar(c) && !is_ctext(c) && !is_atext(c) && !is_special(c),
        is_ctext(c) ==> is_vchar(c),
        is_special(c) ==> is_vchar(c),
{
}

/// Every character of a class, and every space and tab, is a character of US-ASCII,
/// which UTF-8 encodes in one byte: where a recogniser takes one of them, it moves on
/// by one byte.
pub proof fn lemma_one_byte(c: char)
    requires
        is_vchar(c) || is_wsp(c),
    ensures
        encode_utf8(seq![c]).len() == 1,
{
    is_ascii_chars_encode_utf8(seq![c]);
}

} // verus!
