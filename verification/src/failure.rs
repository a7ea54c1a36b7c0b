//! How a recogniser reports that it did not succeed, and the mathematical model
//! of a recogniser's result that the contracts of this crate are stated over.

use crate::text::{byte_offset, is_suffix};
use vstd::prelude::*;

verus! {

/// Whether a caller may go on to another alternative after a failure.
#[derive(Clone, Copy, Debug, PartialEq, Eq)]
pub enum Severity {
    /// Nothing was recognised at this position; another alternative may be tried here.
    NoMatch,
    /// A construct was opened and could not be completed; every enclosing choice is
    /// abandoned.
    Fatal,
}

/// What was looked for at the position of a failure.
#[derive(Clone, Copy, Debug, PartialEq, Eq)]
pub enum ErrorKind {
    /// One character out of a class of characters.
    OneOf,
    /// A fixed piece of text.
    Tag,
}

/// A failure, with the part of the input that was still unread where it was detected.
/// The position of the failure is the length of the whole input less that of `input`.
#[derive(Clone, Copy, Debug, PartialEq, Eq)]
pub struct ParseError<'a> {
    pub severity: Severity,
    pub input: &'a str,
    pub code: ErrorKind,
}

/// The model of a failure: `input` is what was still unread.
pub struct Failure {
    pub severity: Severity,
    pub input: Seq<char>,
    pub code: ErrorKind,
}

impl<'a> View for ParseError<'a> {
    type V = Failure;

    open spec fn view(&self) -> Failure {
        Failure { severity: self.severity, input: self.input@, code: self.code }
    }
}

impl<'a> ParseError<'a> {
    /// The place of the failure in `whole`, the text that was handed to the recogniser:
    /// the number of bytes in front of the unread text.
    pub fn offset_in(&self, whole: &str) -> (at: Option<usize>)
        ensures
            at == byte_offset(whole@, self.input@),
    {
        let all = whole.as_bytes().len();
        let unread = self.input.as_bytes().len();
        if unread <= all {
            Some(all - unread)
        } else {
            None
        }
    }
}

/// The model of a recogniser's result on a sequence of characters.
pub enum Outcome<V> {
    /// The front of the input stands for `value`; `rest` is what is behind it.
    Match { value: V, rest: Seq<char> },
    Fail(Failure),
}

/// The failure that lets the caller try something else, with `input` unread.
pub open spec fn no_match(input: Seq<char>, code: ErrorKind) -> Failure {
    Failure { severity: Severity::NoMatch, input, code }
}

/// The failure that ends the whole attempt, with `input` unread.
pub open spec fn fatal(input: Seq<char>, code: ErrorKind) -> Failure {
    Failure { severity: Severity::Fatal, input, code }
}

/// A result of executable code says what `model` says.
pub open spec fn agrees<'a, T: View>(
    res: Result<(&'a str, T), ParseError<'a>>,
    model: Outcome<T::V>,
) -> bool {
    match model {
        Outcome::Match { value, rest } => res matches Ok((unread, found)) && found@ == value
            && unread@ == rest,
        Outcome::Fail(f) => res matches Err(e) && e@ == f,
    }
}

/// A result of executable code keeps to its input: what is left unread after a match
/// is a suffix of the input and shorter than it, and what was unread at a failure is
/// a suffix of the input.
pub open spec fn advances<'a, T>(
    res: Result<(&'a str, T), ParseError<'a>>,
    input: Seq<char>,
) -> bool {
    match res {
        Ok((unread, _)) => is_suffix(unread@, input) && unread@.len() < input.len(),
        Err(e) => is_suffix(e.input@, input),
    }
}

} // verus!
