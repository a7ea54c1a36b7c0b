//! The three recognisers of `nom` that read the input. What they do is taken on
//! trust from `nom`; everything built on them is proved.

use crate::text::starts_with;
use vstd::prelude::*;

verus! {

/// `nom::Err`, the failure of a `nom` parser. Nothing is read from a value of it:
/// the recognisers of this crate say themselves where and how they failed.
#[verifier::external_type_specification]
#[verifier::external_body]
#[verifier::reject_recursive_types(E)]
pub struct ExNomErr<E>(nom::Err<E>);

/// `nom::error::Error`, which a `nom::Err` holds. Nothing is read from a value of it.
#[verifier::external_type_specification]
#[verifier::external_body]
#[verifier::reject_recursive_types(I)]
pub struct ExNomError<I>(nom::error::Error<I>);

/// `nom::character::complete::one_of`: succeeds exactly when the input has a first
/// character and `list` holds it, and then hands back that character and the input
/// behind it.
#[verifier::external_body]
pub(crate) fn one_of<'a>(input: &'a str, list: &str) -> (res: Result<
    (&'a str, char),
    nom::Err<nom::error::Error<&'a str>>,
>)
    ensures
        match res {
            Ok((rest, c)) => input@.len() > 0 && c == input@[0] && list@.contains(c) && rest@
                == input@.skip(1),
            Err(_) => input@.len() == 0 || !list@.contains(input@[0]),
        },
{
    nom::character::complete::one_of(list)(input)
}

/// `nom::bytes::complete::tag`: succeeds exactly when the input begins with `text`,
/// and then hands back that beginning and the input behind it. (`nom` compares the
/// bytes of the two strings. Both are UTF-8, where one text begins with another byte
/// by byte exactly when it does so character by character.)
#[verifier::external_body]
pub(crate) fn tag<'a>(input: &'a str, text: &str) -> (res: Result<
    (&'a str, &'a str),
    nom::Err<nom::error::Error<&'a str>>,
>)
    ensures
        match res {
            Ok((rest, found)) => starts_with(input@, text@) && found@ == text@ && rest@
                == input@.skip(text@.len() as int),
            Err(_) => !starts_with(input@, text@),
        },
{
    nom::bytes::complete::tag(text)(input)
}

/// `nom::character::complete::crlf`: succeeds exactly when the input begins with a
/// carriage return and a line feed, and then hands back the two and the input behind them.
#[verifier::external_body]
pub(crate) fn crlf<'a>(input: &'a str) -> (res: Result<
    (&'a str, &'a str),
    nom::Err<nom::error::Error<&'a str>>,
>)
    ensures
        match res {
            Ok((rest, found)) => starts_with(input@, seq!['\r', '\n']) && found@ == seq![
                '\r',
                '\n',
            ] && rest@ == input@.skip(2),
            Err(_) => !starts_with(input@, seq!['\r', '\n']),
        },
{
    nom::character::complete::crlf(input)
}

} // verus!
