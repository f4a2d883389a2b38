//! Text: UTF-8, trimming, and Base64, each through the function that the
//! standard library or the `base64` crate provides for it.

use vstd::prelude::*;
use vstd::string::StringSliceAdditionalSpecFns;
use vstd::utf8::{decode_utf8, encode_utf8_decode_utf8, valid_utf8};
use base64::Engine;
use crate::outcome::{outcome, step, well_formed, ErrorKind, Outcome, PResult, ParseErr};

verus! {

/// Calls `std::str::from_utf8`. Trusted: it succeeds exactly on valid UTF-8,
/// and then the string's bytes are the input.
#[verifier::external_body]
fn utf8_str(v: &[u8]) -> (r: Option<&str>)
    ensures
        r is Some <==> valid_utf8(v@),
        r matches Some(s) ==> s.spec_bytes() == v@,
{
    std::str::from_utf8(v).ok()
}

/// A character with Unicode's White_Space property: U+0009 to U+000D, U+0020,
/// U+0085, U+00A0, U+1680, U+2000 to U+200A, U+2028, U+2029, U+202F, U+205F
/// and U+3000.
pub open spec fn is_white_space(c: char) -> bool {
    let u = c as u32;
    ||| 9 <= u <= 13
    ||| u == 32 || u == 0x85 || u == 0xA0 || u == 0x1680
    ||| 0x2000 <= u <= 0x200A
    ||| u == 0x2028 || u == 0x2029 || u == 0x202F || u == 0x205F || u == 0x3000
}

/// The number of white-space characters at the start of `s`.
pub open spec fn leading_white_space(s: Seq<char>) -> nat
    decreases s.len(),
{
    if s.len() > 0 && is_white_space(s[0]) {
        1 + leading_white_space(s.drop_first())
    } else {
        0
    }
}

/// The number of white-space characters at the end of `s`.
pub open spec fn trailing_white_space(s: Seq<char>) -> nat
    decreases s.len(),
{
    if s.len() > 0 && is_white_space(s.last()) {
        1 + trailing_white_space(s.drop_last())
    } else {
        0
    }
}

/// `s` without its leading and trailing white space.
pub open spec fn trimmed(s: Seq<char>) -> Seq<char> {
    let t = s.skip(leading_white_space(s) as int);
    t.take(t.len() - trailing_white_space(t))
}

/// Calls `str::trim`, which removes the leading and trailing characters of a
/// string that have Unicode's White_Space property. Trusted: its result is
/// `trimmed(s@)`.
#[verifier::external_body]
pub(crate) fn trim(s: &str) -> (r: &str)
    ensures
        r@ == trimmed(s@),
{
    s.trim()
}

/// A step whose bytes are then read as UTF-8 text; where they are not UTF-8,
/// the step fails at `s`, where it began.
pub open spec fn as_utf8(s: Seq<u8>, r: Outcome<Seq<u8>>) -> Outcome<Seq<char>> {
    step(
        r,
        |rest: Seq<u8>, b: Seq<u8>|
            if valid_utf8(b) {
                Outcome::Done(rest, decode_utf8(b))
            } else {
                Outcome::Error(s, ErrorKind::MapRes)
            },
    )
}

/// Reads the bytes that a step took as UTF-8 text.
pub fn to_utf8<'a>(i: &'a [u8], r: PResult<'a, &'a [u8]>) -> (res: PResult<'a, &'a str>)
    ensures
        outcome(res) == as_utf8(i@, outcome(r)),
{
    let (rest, b) = r?;
    match utf8_str(b) {
        Some(s) => {
            proof {
                encode_utf8_decode_utf8(s@);
            }
            Ok((rest, s))
        },
        None => Err(ParseErr::Error(i, ErrorKind::MapRes)),
    }
}

#[verifier::external_type_specification]
#[verifier::external_body]
pub struct ExDecodeError(base64::DecodeError);

/// The result of decoding Base64 with `base64`'s `STANDARD_NO_PAD` engine:
/// the decoded bytes, or `None` where the input is refused.
pub uninterp spec fn base64_no_pad(input: Seq<u8>) -> Option<Seq<u8>>;

/// Calls `Engine::decode` of `base64::engine::general_purpose::STANDARD_NO_PAD`.
/// Trusted: it succeeds where `base64_no_pad(input@)` is some bytes, and then
/// gives those bytes.
#[verifier::external_body]
fn decode_base64(input: &[u8]) -> (r: Result<Vec<u8>, base64::DecodeError>)
    ensures
        r matches Ok(v) ==> base64_no_pad(input@) == Some(v@),
        r is Err ==> base64_no_pad(input@) is None,
{
    base64::engine::general_purpose::STANDARD_NO_PAD.decode(input)
}

/// A step whose bytes are then decoded as Base64, given the decoding;
/// where they are refused, the step fails at `s`, where it began.
pub open spec fn as_base64_given(
    s: Seq<u8>,
    r: Outcome<Seq<u8>>,
    decoded: Option<Seq<u8>>,
) -> Outcome<Seq<u8>> {
    step(
        r,
        |rest: Seq<u8>, b: Seq<u8>|
            match decoded {
                Some(d) => Outcome::Done(rest, d),
                None => Outcome::Error(s, ErrorKind::MapRes),
            },
    )
}

/// A step whose bytes are then decoded as Base64.
pub open spec fn as_base64(s: Seq<u8>, r: Outcome<Seq<u8>>) -> Outcome<Seq<u8>> {
    match r {
        Outcome::Done(_, b) => as_base64_given(s, r, base64_no_pad(b)),
        _ => as_base64_given(s, r, None),
    }
}

/// What a step that read `taken` gives, once the bytes are decoded as Base64.
pub fn base64_from_decoded<'a>(
    i: &'a [u8],
    rest: &'a [u8],
    taken: &'a [u8],
    decoded: Result<Vec<u8>, base64::DecodeError>,
) -> (res: PResult<'a, Vec<u8>>)
    ensures
        outcome(res) == as_base64_given(
            i@,
            Outcome::Done(rest@, taken@),
            match decoded {
                Ok(v) => Some(v@),
                Err(_) => None,
            },
        ),
{
    match decoded {
        Ok(v) => Ok((rest, v)),
        Err(_) => Err(ParseErr::Error(i, ErrorKind::MapRes)),
    }
}

/// Decodes as Base64 the bytes that a step took.
pub fn to_base64<'a>(i: &'a [u8], r: PResult<'a, &'a [u8]>) -> (res: PResult<'a, Vec<u8>>)
    ensures
        outcome(res) == as_base64(i@, outcome(r)),
{
    let (rest, b) = r?;
    let decoded = decode_base64(b);
    base64_from_decoded(i, rest, b, decoded)
}

pub broadcast proof fn lemma_as_utf8_well_formed(s: Seq<u8>, r: Outcome<Seq<u8>>)
    requires
        well_formed(r, s),
    ensures
        well_formed(#[trigger] as_utf8(s, r), s),
{
}

pub broadcast proof fn lemma_as_base64_well_formed(s: Seq<u8>, r: Outcome<Seq<u8>>)
    requires
        well_formed(r, s),
    ensures
        well_formed(#[trigger] as_base64(s, r), s),
{
}

pub broadcast group group_text_well_formed {
    lemma_as_utf8_well_formed,
    lemma_as_base64_well_formed,
}

} // verus!
