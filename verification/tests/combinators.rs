//! The recognisers against the same grammar written with `nom`'s combinators, on
//! every text of a few characters over an alphabet that holds each kind of character
//! the grammar tells apart. The combinators know no fatal failure, so the two are
//! compared wherever the recogniser does not report one.

use mail_token::failure::{ErrorKind, ParseError, Severity};
use mail_token::token::atom::{atext, atom, dot_atom, dot_atom_text, specials};
use mail_token::token::basic::{vchar, wsp};
use mail_token::token::wsp_comment::{ccontent, cfws, comment, ctext, fws, quoted_pair};
use nom::branch::alt;
use nom::bytes::complete::tag;
use nom::character::complete::{crlf, one_of};
use nom::combinator::{opt, recognize};
use nom::multi::{many0, many1};
use nom::sequence::{pair, preceded, tuple};
use nom::IResult;

const ALPHABET: [char; 10] = ['a', '.', ' ', '\t', '\r', '\n', '(', ')', '\\', '\u{e9}'];

fn texts(max_len: usize) -> Vec<String> {
    let mut all = vec![String::new()];
    let mut last = vec![String::new()];
    for _ in 0..max_len {
        let mut next = Vec::new();
        for text in &last {
            for c in ALPHABET {
                let mut longer = text.clone();
                longer.push(c);
                next.push(longer);
            }
        }
        all.extend(next.iter().cloned());
        last = next;
    }
    all
}

fn folded_texts(max_len: usize) -> Vec<String> {
    let pieces = ["a", " ", "\r\n", "(", ")", "\\", "."];
    let mut all = vec![String::new()];
    let mut last = vec![String::new()];
    for _ in 0..max_len {
        let mut next = Vec::new();
        for text in &last {
            for piece in pieces {
                next.push(format!("{}{}", text, piece));
            }
        }
        all.extend(next.iter().cloned());
        last = next;
    }
    all
}

fn n_vchar(input: &str) -> IResult<&str, &str> {
    let set: String = ('!'..='~').collect();
    let found = recognize(one_of(&set[..]))(input);
    found
}

fn n_wsp(input: &str) -> IResult<&str, &str> {
    alt((tag(" "), tag("\t")))(input)
}

fn n_quoted_pair(input: &str) -> IResult<&str, &str> {
    preceded(tag("\\"), alt((n_vchar, n_wsp)))(input)
}

fn n_fws(input: &str) -> IResult<&str, &str> {
    recognize(pair(opt(pair(many0(n_wsp), crlf)), many1(n_wsp)))(input)
}

fn n_ctext(input: &str) -> IResult<&str, &str> {
    let set: String = ('!'..='\'').chain('*'..='[').chain(']'..='~').collect();
    let found = recognize(one_of(&set[..]))(input);
    found
}

fn n_ccontent(input: &str) -> IResult<&str, String> {
    alt((nom::combinator::map(alt((n_ctext, n_quoted_pair)), str::to_owned), n_comment))(input)
}

fn spaced((gap, text): (Option<&str>, String)) -> String {
    match gap {
        None => text,
        Some(_) => format!(" {}", text),
    }
}

fn n_comment(input: &str) -> IResult<&str, String> {
    nom::combinator::map(
        tuple((
            tag("("),
            many0(nom::combinator::map(pair(opt(n_fws), n_ccontent), spaced)),
            opt(n_fws),
            tag(")"),
        )),
        |(_, pieces, _, _)| format!("({})", pieces.join("")),
    )(input)
}

fn n_cfws(input: &str) -> IResult<&str, String> {
    alt((
        nom::combinator::map(
            pair(many1(nom::combinator::map(pair(opt(n_fws), n_comment), spaced)), opt(n_fws)),
            |(comments, gap)| match gap {
                None => comments.join(""),
                Some(_) => format!("{} ", comments.join("")),
            },
        ),
        nom::combinator::map(n_fws, |_| " ".to_owned()),
    ))(input)
}

fn n_atext(input: &str) -> IResult<&str, &str> {
    recognize(one_of(
        "0123456789ABCDEFGHIJKLMNOPQRSTUVWXYZabcdefghijklmnopqrstuvwxyz!#$%&'*+-/=?^_`{|}~",
    ))(input)
}

fn n_specials(input: &str) -> IResult<&str, &str> {
    recognize(one_of("()<>[]:;@\\,.\""))(input)
}

type Parts = (Option<String>, String, Option<String>);

fn n_atom(input: &str) -> IResult<&str, Parts> {
    nom::combinator::map(
        tuple((opt(n_cfws), many1(n_atext), opt(n_cfws))),
        |(pre, content, post)| (pre, content.concat(), post),
    )(input)
}

fn n_dot_atom_text(input: &str) -> IResult<&str, &str> {
    recognize(pair(many1(n_atext), many0(pair(tag("."), many1(n_atext)))))(input)
}

fn n_dot_atom(input: &str) -> IResult<&str, Parts> {
    nom::combinator::map(
        tuple((opt(n_cfws), n_dot_atom_text, opt(n_cfws))),
        |(pre, content, post)| (pre, content.to_owned(), post),
    )(input)
}

fn same<T: PartialEq + std::fmt::Debug>(
    input: &str,
    ours: Result<(&str, T), ParseError<'_>>,
    theirs: IResult<&str, T>,
) {
    match (ours, theirs) {
        (Err(e), _) if e.severity == Severity::Fatal => {}
        (Ok(found), Ok(expected)) => assert_eq!(found, expected, "on {:?}", input),
        (Err(e), Err(nom::Err::Error(expected))) => {
            assert_eq!(e.input, expected.input, "on {:?}", input);
            let code = match e.code {
                ErrorKind::OneOf => nom::error::ErrorKind::OneOf,
                ErrorKind::Tag => nom::error::ErrorKind::Tag,
            };
            assert_eq!(code, expected.code, "on {:?}", input);
        }
        (ours, theirs) => panic!("on {:?}: {:?} against {:?}", input, ours, theirs),
    }
}

#[test]
fn single_characters_agree_with_the_combinators() {
    for code in 0u32..0x180 {
        let text = format!("{}x", char::from_u32(code).unwrap());
        same(&text, vchar(&text), n_vchar(&text));
        same(&text, wsp(&text), n_wsp(&text));
        same(&text, ctext(&text), n_ctext(&text));
        same(&text, atext(&text), n_atext(&text));
        same(&text, specials(&text), n_specials(&text));
        let escaped = format!("\\{}", text);
        same(&escaped, quoted_pair(&escaped), n_quoted_pair(&escaped));
    }
    for text in ["", "\\"] {
        same(text, vchar(text), n_vchar(text));
        same(text, wsp(text), n_wsp(text));
        same(text, ctext(text), n_ctext(text));
        same(text, atext(text), n_atext(text));
        same(text, specials(text), n_specials(text));
        same(text, quoted_pair(text), n_quoted_pair(text));
    }
}

#[test]
fn white_space_agrees_with_the_combinators() {
    for text in texts(5) {
        same(&text, fws(&text), n_fws(&text));
        same(&text, quoted_pair(&text), n_quoted_pair(&text));
    }
}

#[test]
fn comments_agree_with_the_combinators() {
    for text in texts(5) {
        same(&text, ccontent(&text), n_ccontent(&text));
        same(&text, comment(&text), n_comment(&text));
        same(&text, cfws(&text), n_cfws(&text));
    }
}

#[test]
fn closed_comments_agree_with_the_combinators() {
    for inner in texts(4) {
        let text = format!("({})a", inner);
        same(&text, comment(&text), n_comment(&text));
        let text = format!(" ({}) ({})", inner, inner);
        same(&text, cfws(&text), n_cfws(&text));
    }
}

#[test]
fn atoms_agree_with_the_combinators() {
    for text in texts(5) {
        same(&text, dot_atom_text(&text), n_dot_atom_text(&text));
        same(
            &text,
            atom(&text).map(|(rest, t)| (rest, (t.pre_comment, t.content, t.post_comment))),
            n_atom(&text),
        );
        same(
            &text,
            dot_atom(&text).map(|(rest, t)| (rest, (t.pre_comment, t.content, t.post_comment))),
            n_dot_atom(&text),
        );
    }
}

#[test]
fn comments_fail_fatally_where_the_combinators_fail_behind_the_parenthesis() {
    for text in texts(5) {
        match comment(&text) {
            Ok(_) => assert!(n_comment(&text).is_ok(), "on {:?}", text),
            Err(e) => {
                assert!(n_comment(&text).is_err(), "on {:?}", text);
                assert_eq!(
                    e.severity == Severity::Fatal,
                    text.starts_with('('),
                    "on {:?}",
                    text
                );
            }
        }
    }
}

#[test]
fn folds_agree_with_the_combinators() {
    for text in folded_texts(6) {
        same(&text, fws(&text), n_fws(&text));
        same(&text, comment(&text), n_comment(&text));
        same(&text, cfws(&text), n_cfws(&text));
        same(&text, dot_atom_text(&text), n_dot_atom_text(&text));
        same(
            &text,
            atom(&text).map(|(rest, t)| (rest, (t.pre_comment, t.content, t.post_comment))),
            n_atom(&text),
        );
    }
}
