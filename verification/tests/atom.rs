use mail_token::failure::{ErrorKind, ParseError, Severity};
use mail_token::token::atom::{atext, atom, dot_atom, dot_atom_text, specials};

const SPECIALS: &str = "()<>[]:;@\\,.\"";
const PUNCTUATION: &str = "!#$%&'*+-/=?^_`{|}~";

fn one_of(input: &str) -> ParseError<'_> {
    ParseError {
        severity: Severity::NoMatch,
        input,
        code: ErrorKind::OneOf,
    }
}

fn fatal(input: &str) -> ParseError<'_> {
    ParseError {
        severity: Severity::Fatal,
        input,
        code: ErrorKind::Tag,
    }
}

#[test]
fn test_atext() {
    assert_eq!(atext("abc"), Ok(("bc", "a")));
    assert_eq!(atext("Z9"), Ok(("9", "Z")));
    assert_eq!(atext("7~"), Ok(("~", "7")));
    assert_eq!(atext("~"), Ok(("", "~")));
    for c in PUNCTUATION.chars() {
        let text = format!("{}x", c);
        assert_eq!(atext(&text), Ok(("x", &text[..1])));
    }
    for c in SPECIALS.chars() {
        let text = format!("{}x", c);
        assert_eq!(atext(&text), Err(one_of(&text)));
    }
    assert_eq!(atext(" a"), Err(one_of(" a")));
    assert_eq!(atext("\ta"), Err(one_of("\ta")));
    assert_eq!(atext("\r\n"), Err(one_of("\r\n")));
    assert_eq!(atext(""), Err(one_of("")));
}

#[test]
fn test_dot_atom_text() {
    assert_eq!(dot_atom_text("a..b"), Ok(("..b", "a")));
    assert_eq!(dot_atom_text("a.b.c rest"), Ok((" rest", "a.b.c")));
    assert_eq!(dot_atom_text("example.com"), Ok(("", "example.com")));
    assert_eq!(dot_atom_text("abc"), Ok(("", "abc")));
    assert_eq!(dot_atom_text("a."), Ok((".", "a")));
    assert_eq!(dot_atom_text("a. b"), Ok((". b", "a")));
    assert_eq!(dot_atom_text("a.b..c"), Ok(("..c", "a.b")));
    assert_eq!(dot_atom_text("john.doe@host"), Ok(("@host", "john.doe")));
    assert_eq!(dot_atom_text(".a"), Err(one_of(".a")));
    assert_eq!(dot_atom_text(" a"), Err(one_of(" a")));
    assert_eq!(dot_atom_text(""), Err(one_of("")));
}

#[test]
fn test_atom() {
    let (rest, found) = atom("(hello)ABC").unwrap();
    assert_eq!(rest, "");
    assert_eq!(found.pre_comment, Some("(hello)".to_owned()));
    assert_eq!(found.content, "ABC");
    assert_eq!(found.post_comment, None);

    let (rest, found) = atom(" abc \r\n (c) def").unwrap();
    assert_eq!(rest, "def");
    assert_eq!(found.pre_comment, Some(" ".to_owned()));
    assert_eq!(found.content, "abc");
    assert_eq!(found.post_comment, Some(" (c) ".to_owned()));

    let (rest, found) = atom("abc").unwrap();
    assert_eq!(rest, "");
    assert_eq!(found.pre_comment, None);
    assert_eq!(found.content, "abc");
    assert_eq!(found.post_comment, None);

    let (rest, found) = atom("a.b").unwrap();
    assert_eq!(rest, ".b");
    assert_eq!(found.content, "a");
    assert_eq!(found.post_comment, None);

    assert_eq!(atom("").map(|_| ()), Err(one_of("")));
    assert_eq!(atom(" (c) ").map(|_| ()), Err(one_of("")));
    assert_eq!(atom("(c).a").map(|_| ()), Err(one_of(".a")));
}

#[test]
fn test_dot_atom() {
    let (rest, found) = dot_atom(" example.com (the host) >").unwrap();
    assert_eq!(rest, ">");
    assert_eq!(found.pre_comment, Some(" ".to_owned()));
    assert_eq!(found.content, "example.com");
    assert_eq!(found.post_comment, Some(" (the host) ".to_owned()));

    let (rest, found) = dot_atom("a..b").unwrap();
    assert_eq!(rest, "..b");
    assert_eq!(found.pre_comment, None);
    assert_eq!(found.content, "a");
    assert_eq!(found.post_comment, None);

    let (rest, found) = dot_atom("(c)x.y.z").unwrap();
    assert_eq!(rest, "");
    assert_eq!(found.pre_comment, Some("(c)".to_owned()));
    assert_eq!(found.content, "x.y.z");
    assert_eq!(found.post_comment, None);

    assert_eq!(dot_atom("").map(|_| ()), Err(one_of("")));
    assert_eq!(dot_atom(" .a").map(|_| ()), Err(one_of(".a")));
}

#[test]
fn atext_takes_exactly_its_class() {
    for code in 0u32..0x300 {
        let c = char::from_u32(code).unwrap();
        let text = c.to_string();
        let expected = c.is_ascii_alphanumeric() || PUNCTUATION.contains(c);
        assert_eq!(atext(&text).is_ok(), expected, "{:?}", c);
    }
}

#[test]
fn atext_and_specials_share_no_character() {
    for code in 0u32..0x300 {
        let c = char::from_u32(code).unwrap();
        let text = c.to_string();
        let visible = (0x21..=0x7e).contains(&code);
        assert_eq!(
            atext(&text).is_ok() || specials(&text).is_ok(),
            visible,
            "{:?}",
            c
        );
        assert!(!(atext(&text).is_ok() && specials(&text).is_ok()), "{:?}", c);
    }
}

#[test]
fn specials_takes_each_delimiter() {
    for c in SPECIALS.chars() {
        let text = format!("{}x", c);
        assert_eq!(specials(&text), Ok(("x", &text[..1])));
    }
    assert_eq!(specials("a"), Err(one_of("a")));
    assert_eq!(specials(" "), Err(one_of(" ")));
    assert_eq!(specials("'"), Err(one_of("'")));
    assert_eq!(specials(""), Err(one_of("")));
}

#[test]
fn atom_content_is_not_normalised() {
    let (rest, found) = atom("\t a!#$%&'*+-/=?^_`{|}~Z0 \t b").unwrap();
    assert_eq!(rest, "b");
    assert_eq!(found.pre_comment, Some(" ".to_owned()));
    assert_eq!(found.content, "a!#$%&'*+-/=?^_`{|}~Z0");
    assert_eq!(found.post_comment, Some(" ".to_owned()));
}

#[test]
fn atom_unclosed_comment_is_fatal() {
    assert_eq!(atom("(x").map(|_| ()), Err(fatal("")));
    assert_eq!(atom("abc (x").map(|_| ()), Err(fatal("")));
    assert_eq!(atom("abc (x\\").map(|_| ()), Err(fatal("")));
    assert_eq!(dot_atom("a.b (x").map(|_| ()), Err(fatal("")));
    assert_eq!(dot_atom("(x (y)").map(|_| ()), Err(fatal("")));
}

#[test]
fn atom_before_a_bare_line_break() {
    let (rest, found) = atom("abc\r\n").unwrap();
    assert_eq!(rest, "\r\n");
    assert_eq!(found.content, "abc");
    assert_eq!(found.post_comment, None);

    let (rest, found) = atom("abc \r\nnext").unwrap();
    assert_eq!(rest, " \r\nnext");
    assert_eq!(found.content, "abc");
    assert_eq!(found.post_comment, None);
}

#[test]
fn dot_atom_content_has_no_dot_at_an_end_or_beside_another() {
    for input in ["a", "a.b", "a.b.", "a..b", "ab.cd.ef..", "x.y.z.", "a.b c.d"] {
        let (rest, found) = dot_atom(input).unwrap();
        let content = found.content;
        assert!(!content.is_empty());
        assert!(!content.starts_with('.'));
        assert!(!content.ends_with('.'));
        assert!(!content.contains(".."));
        assert!(!content.contains(' '));
        let after = found.post_comment.map_or(0, |_| 1);
        assert_eq!(content.len() + after + rest.len(), input.len());
        assert!(input.starts_with(&content));
    }
}

#[test]
fn atom_content_holds_atom_characters_only() {
    for input in ["abc def", " (c) a+b=c (d) ", "x(y)z", "p\tq", "x.y", "a@b", "a\\b"] {
        let (_, found) = atom(input).unwrap();
        assert!(!found.content.is_empty());
        for c in found.content.chars() {
            assert!(c.is_ascii_graphic());
            assert!(!"()<>[]:;@\\,.\"".contains(c));
        }
    }
}
