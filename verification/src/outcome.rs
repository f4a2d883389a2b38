//! Results of the parsers: the executable form, and its mathematical model.

use vstd::prelude::*;

verus! {

/// What went wrong where a parser stops.
#[derive(Clone, Copy, Debug, PartialEq, Eq, Structural)]
pub enum ErrorKind {
    /// An expected keyword, '#' or ',' is not there.
    Tag,
    /// Two hexadecimal digits are not there.
    TakeWhileMN,
    /// A keyword of a !KEYWORDS list is empty.
    TakeWhile1,
    /// A number of decimal digits is not there.
    Digit,
    /// Spaces are not there.
    Space,
    /// The end of a line is not there.
    CrLf,
    /// What was read could not be converted (too large a number, text that
    /// is not UTF-8, data that is not Base64).
    MapRes,
    /// The line type is not one of 0 to 5.
    Switch,
    /// A line was read without moving on.
    Many0,
    /// A floating-point number is not there, or is cut short.
    Float,
    /// The text is not a hexadecimal `u8`.
    AlphaNumeric,
}

/// A parser's failure: `Error` lets an enclosing choice try something else,
/// `Failure` ends the whole parse. Each holds the input where it occurred.
#[derive(Debug, PartialEq, Eq)]
pub enum ParseErr<'a> {
    Error(&'a [u8], ErrorKind),
    Failure(&'a [u8], ErrorKind),
}

/// A parser's result: the input that is left, and the value read.
pub type PResult<'a, T> = Result<(&'a [u8], T), ParseErr<'a>>;

/// The mathematical value that a parsed value stands for.
pub trait Model {
    type M;

    spec fn model(&self) -> Self::M;
}

impl<'a> Model for &'a [u8] {
    type M = Seq<u8>;

    open spec fn model(&self) -> Seq<u8> {
        self@
    }
}

impl Model for u8 {
    type M = u8;

    open spec fn model(&self) -> u8 {
        *self
    }
}

impl Model for u32 {
    type M = u32;

    open spec fn model(&self) -> u32 {
        *self
    }
}

impl<T: Model> Model for Option<T> {
    type M = Option<T::M>;

    open spec fn model(&self) -> Option<T::M> {
        match self {
            Some(v) => Some(v.model()),
            None => None,
        }
    }
}

/// The model of a parser's result: the rest of the input as a sequence,
/// or where and how it stopped.
pub enum Outcome<V> {
    Done(Seq<u8>, V),
    Error(Seq<u8>, ErrorKind),
    Failure(Seq<u8>, ErrorKind),
}

pub open spec fn outcome<'a, T: Model>(r: PResult<'a, T>) -> Outcome<T::M> {
    match r {
        Ok((rest, v)) => Outcome::Done(rest@, v.model()),
        Err(ParseErr::Error(at, k)) => Outcome::Error(at@, k),
        Err(ParseErr::Failure(at, k)) => Outcome::Failure(at@, k),
    }
}

/// A successful step leaves no more than its input `s`, and a step stops the
/// whole parse only on a number.
pub open spec fn well_formed<V>(o: Outcome<V>, s: Seq<u8>) -> bool {
    &&& o matches Outcome::Done(rest, _) ==> rest.len() <= s.len()
    &&& o matches Outcome::Failure(_, k) ==> k == ErrorKind::Float
}

/// Runs `k` on what a successful step leaves; a stop is passed on.
pub open spec fn step<A, B>(r: Outcome<A>, k: spec_fn(Seq<u8>, A) -> Outcome<B>) -> Outcome<B> {
    match r {
        Outcome::Done(rest, a) => k(rest, a),
        Outcome::Error(at, e) => Outcome::Error(at, e),
        Outcome::Failure(at, e) => Outcome::Failure(at, e),
    }
}

/// An optional step: an `Error` becomes "nothing read" at the input `s`.
pub open spec fn optional<A>(s: Seq<u8>, r: Outcome<A>) -> Outcome<Option<A>> {
    match r {
        Outcome::Done(rest, a) => Outcome::Done(rest, Some(a)),
        Outcome::Error(_, _) => Outcome::Done(s, None),
        Outcome::Failure(at, e) => Outcome::Failure(at, e),
    }
}

/// A choice of two: the second is tried when the first stops with an `Error`.
pub open spec fn either<A>(r1: Outcome<A>, r2: Outcome<A>) -> Outcome<A> {
    match r1 {
        Outcome::Error(_, _) => r2,
        _ => r1,
    }
}

/// An optional step: where `r` stops with an `Error`, nothing is read from `i`.
pub fn opt<'a, T: Model>(i: &'a [u8], r: PResult<'a, T>) -> (res: PResult<'a, Option<T>>)
    ensures
        outcome(res) == optional(i@, outcome(r)),
{
    match r {
        Ok((rest, v)) => Ok((rest, Some(v))),
        Err(ParseErr::Error(_, _)) => Ok((i, None)),
        Err(ParseErr::Failure(at, k)) => Err(ParseErr::Failure(at, k)),
    }
}

/// The error that a parser reports at the input `i`.
pub fn nom_error(i: &[u8], kind: ErrorKind) -> (e: ParseErr<'_>)
    ensures
        e matches ParseErr::Error(at, k) && at@ == i@ && k == kind,
{
    ParseErr::Error(i, kind)
}

} // verus!
