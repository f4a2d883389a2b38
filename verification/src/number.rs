//! Numbers: decimal and hexadecimal integers, colours, and the text of
//! floating-point numbers.

use vstd::prelude::*;
use vstd::slice::slice_to_vec;
use crate::bytes::{
    is_digit, span, spec_sp, spec_tag, spec_take_while1, sp, split_at, starts_with_no_case, tag,
    take_while1, ByteClass,
};
use crate::keywords;
use crate::outcome::{outcome, step, well_formed, ErrorKind, Outcome, PResult, ParseErr};
use crate::types::{Color, FloatText, Vec2, Vec2Model, Vec3, Vec3Model};

verus! {

/// The value of a decimal digit, or of a hexadecimal digit in either case.
pub open spec fn digit_value(c: u8) -> nat {
    if c <= 57 {
        (c - 48) as nat
    } else if c <= 70 {
        (c - 55) as nat
    } else {
        (c - 87) as nat
    }
}

/// The value of a string of decimal digits.
pub open spec fn decimal_value(d: Seq<u8>) -> nat
    decreases d.len(),
{
    if d.len() == 0 {
        0
    } else {
        decimal_value(d.drop_last()) * 10 + digit_value(d.last())
    }
}

/// The value of a string of hexadecimal digits.
pub open spec fn hex_value(d: Seq<u8>) -> nat
    decreases d.len(),
{
    if d.len() == 0 {
        0
    } else {
        hex_value(d.drop_last()) * 16 + digit_value(d.last())
    }
}

/// An ASCII hexadecimal digit, in either case.
#[verifier::allow_in_spec]
pub fn is_hex_digit(c: u8) -> bool
    returns
        (48u8 <= c <= 57u8) || (65u8 <= c <= 70u8) || (97u8 <= c <= 102u8),
{
    (48u8 <= c && c <= 57u8) || (65u8 <= c && c <= 70u8) || (97u8 <= c && c <= 102u8)
}

pub open spec fn all_digits(d: Seq<u8>) -> bool {
    forall|j: int| 0 <= j < d.len() ==> is_digit(#[trigger] d[j])
}

pub open spec fn all_hex_digits(d: Seq<u8>) -> bool {
    forall|j: int| 0 <= j < d.len() ==> is_hex_digit(#[trigger] d[j])
}

proof fn lemma_decimal_prefix(d: Seq<u8>, k: int)
    requires
        0 <= k <= d.len(),
    ensures
        decimal_value(d.take(k)) <= decimal_value(d),
    decreases d.len() - k,
{
    if k < d.len() {
        assert(d.take(k + 1).drop_last() =~= d.take(k));
        lemma_decimal_prefix(d, k + 1);
    } else {
        assert(d.take(k) =~= d);
    }
}

proof fn lemma_hex_prefix(d: Seq<u8>, k: int)
    requires
        0 <= k <= d.len(),
    ensures
        hex_value(d.take(k)) <= hex_value(d),
    decreases d.len() - k,
{
    if k < d.len() {
        assert(d.take(k + 1).drop_last() =~= d.take(k));
        lemma_hex_prefix(d, k + 1);
    } else {
        assert(d.take(k) =~= d);
    }
}

/// The value of a string of decimal digits, where it is at most `max`.
fn decimal_upto(d: &[u8], max: u32) -> (r: Option<u32>)
    requires
        all_digits(d@),
    ensures
        r == (if decimal_value(d@) <= max {
            Some(decimal_value(d@) as u32)
        } else {
            None
        }),
{
    let mut acc: u64 = 0;
    let mut j: usize = 0;
    assert(d@.take(0) =~= Seq::<u8>::empty());
    while j < d.len()
        invariant
            j <= d@.len(),
            all_digits(d@),
            acc == decimal_value(d@.take(j as int)),
            acc <= max,
        decreases d@.len() - j,
    {
        let c = d[j];
        assert(is_digit(d@[j as int]));
        assert(d@.take(j + 1).drop_last() =~= d@.take(j as int));
        let next = acc * 10 + (c - 48u8) as u64;
        j = j + 1;
        if next > max as u64 {
            proof {
                lemma_decimal_prefix(d@, j as int);
            }
            return None;
        }
        acc = next;
    }
    assert(d@.take(j as int) =~= d@);
    Some(acc as u32)
}

/// The value of a string of hexadecimal digits, where it is at most 255.
fn hex_upto_255(d: &[u8]) -> (r: Option<u8>)
    requires
        all_hex_digits(d@),
    ensures
        r == (if hex_value(d@) <= 255 {
            Some(hex_value(d@) as u8)
        } else {
            None
        }),
{
    let mut acc: u32 = 0;
    let mut j: usize = 0;
    assert(d@.take(0) =~= Seq::<u8>::empty());
    while j < d.len()
        invariant
            j <= d@.len(),
            all_hex_digits(d@),
            acc == hex_value(d@.take(j as int)),
            acc <= 255,
        decreases d@.len() - j,
    {
        let c = d[j];
        assert(is_hex_digit(d@[j as int]));
        assert(d@.take(j + 1).drop_last() =~= d@.take(j as int));
        let v: u32 = if c <= 57u8 {
            (c - 48u8) as u32
        } else if c <= 70u8 {
            (c - 55u8) as u32
        } else {
            (c - 87u8) as u32
        };
        let next = acc * 16 + v;
        j = j + 1;
        if next > 255 {
            proof {
                lemma_hex_prefix(d@, j as int);
            }
            return None;
        }
        acc = next;
    }
    assert(d@.take(j as int) =~= d@);
    Some(acc as u8)
}

/// The digits that a hexadecimal number is read from: without a leading '+'.
pub open spec fn hex_digits_of(s: Seq<u8>) -> Seq<u8> {
    if s.len() > 0 && s[0] == 43 {
        s.drop_first()
    } else {
        s
    }
}

/// A byte string read as a hexadecimal `u8`: an optional '+' followed by one
/// or more hexadecimal digits, of value at most 255.
pub open spec fn spec_from_hex(s: Seq<u8>) -> Result<u8, ErrorKind> {
    let d = hex_digits_of(s);
    if d.len() > 0 && all_hex_digits(d) && hex_value(d) <= 255 {
        Ok(hex_value(d) as u8)
    } else {
        Err(ErrorKind::AlphaNumeric)
    }
}

/// Reads a `u8` written in hexadecimal.
pub fn from_hex(i: &[u8]) -> (r: Result<u8, ErrorKind>)
    ensures
        r == spec_from_hex(i@),
{
    let d = if i.len() > 0 && i[0] == 43u8 {
        split_at(i, 1).0
    } else {
        i
    };
    assert(d@ == hex_digits_of(i@));
    if d.len() == 0 {
        return Err(ErrorKind::AlphaNumeric);
    }
    let mut j: usize = 0;
    while j < d.len()
        invariant
            j <= d@.len(),
            d@ == hex_digits_of(i@),
            forall|m: int| 0 <= m < j ==> is_hex_digit(#[trigger] d@[m]),
        decreases d@.len() - j,
    {
        if !is_hex_digit(d[j]) {
            return Err(ErrorKind::AlphaNumeric);
        }
        j = j + 1;
    }
    match hex_upto_255(d) {
        Some(v) => Ok(v),
        None => Err(ErrorKind::AlphaNumeric),
    }
}

/// Exactly two hexadecimal digits.
pub open spec fn spec_two_hex_digits(s: Seq<u8>) -> Outcome<Seq<u8>> {
    if s.len() >= 2 && is_hex_digit(s[0]) && is_hex_digit(s[1]) {
        Outcome::Done(s.skip(2), s.take(2))
    } else {
        Outcome::Error(s, ErrorKind::TakeWhileMN)
    }
}

/// One primary of a colour: two hexadecimal digits.
pub open spec fn spec_hex_primary(s: Seq<u8>) -> Outcome<u8> {
    step(
        spec_two_hex_digits(s),
        |rest: Seq<u8>, d: Seq<u8>|
            match spec_from_hex(d) {
                Ok(v) => Outcome::Done(rest, v),
                Err(_) => Outcome::Error(s, ErrorKind::MapRes),
            },
    )
}

/// A colour written "#RRGGBB".
pub open spec fn spec_hex_color(s: Seq<u8>) -> Outcome<Color> {
    step(
        spec_tag(s, keywords::HASH@),
        |r1: Seq<u8>, t: Seq<u8>|
            step(
                spec_hex_primary(r1),
                |r2: Seq<u8>, red: u8|
                    step(
                        spec_hex_primary(r2),
                        |r3: Seq<u8>, green: u8|
                            step(
                                spec_hex_primary(r3),
                                |r4: Seq<u8>, blue: u8| Outcome::Done(r4, Color { red, green, blue }),
                            ),
                    ),
            ),
    )
}

pub fn hex_primary(i: &[u8]) -> (r: PResult<'_, u8>)
    ensures
        outcome(r) == spec_hex_primary(i@),
{
    if i.len() >= 2 && is_hex_digit(i[0]) && is_hex_digit(i[1]) {
        let (rest, d) = split_at(i, 2);
        match from_hex(d) {
            Ok(v) => Ok((rest, v)),
            Err(_) => Err(ParseErr::Error(i, ErrorKind::MapRes)),
        }
    } else {
        Err(ParseErr::Error(i, ErrorKind::TakeWhileMN))
    }
}

pub fn hex_color(i: &[u8]) -> (r: PResult<'_, Color>)
    ensures
        outcome(r) == spec_hex_color(i@),
{
    let (i, _) = tag(i, keywords::HASH.as_slice())?;
    let (i, red) = hex_primary(i)?;
    let (i, green) = hex_primary(i)?;
    let (i, blue) = hex_primary(i)?;
    Ok((i, Color { red, green, blue }))
}

/// One or more decimal digits, read as a number of at most `max`.
pub open spec fn spec_decimal(s: Seq<u8>, max: u32) -> Outcome<u32> {
    step(
        spec_take_while1(s, ByteClass::Digit, ErrorKind::Digit),
        |rest: Seq<u8>, d: Seq<u8>|
            if decimal_value(d) <= max {
                Outcome::Done(rest, decimal_value(d) as u32)
            } else {
                Outcome::Error(s, ErrorKind::MapRes)
            },
    )
}

pub open spec fn spec_digit1_as_u8(s: Seq<u8>) -> Outcome<u8> {
    step(spec_decimal(s, 255), |rest: Seq<u8>, v: u32| Outcome::Done(rest, v as u8))
}

/// A colour code: a decimal `u32`.
pub open spec fn spec_color_id(s: Seq<u8>) -> Outcome<u32> {
    spec_decimal(s, u32::MAX)
}

proof fn lemma_digits_of_span(s: Seq<u8>)
    ensures
        all_digits(s.take(crate::bytes::span(s, ByteClass::Digit) as int)),
{
    crate::bytes::lemma_span_bound(s, ByteClass::Digit);
    let n = crate::bytes::span(s, ByteClass::Digit) as int;
    assert forall|j: int| 0 <= j < n implies is_digit(#[trigger] s.take(n)[j]) by {
        crate::bytes::lemma_span_prefix(s, ByteClass::Digit, j);
    }
}

fn decimal<'a>(i: &'a [u8], max: u32) -> (r: PResult<'a, u32>)
    ensures
        outcome(r) == spec_decimal(i@, max),
{
    let (rest, d) = match take_while1(i, ByteClass::Digit, ErrorKind::Digit) {
        Ok(x) => x,
        Err(e) => return Err(e),
    };
    proof {
        lemma_digits_of_span(i@);
    }
    match decimal_upto(d, max) {
        Some(v) => Ok((rest, v)),
        None => Err(ParseErr::Error(i, ErrorKind::MapRes)),
    }
}

/// One or more decimal digits read as a `u8`.
pub fn digit1_as_u8(i: &[u8]) -> (r: PResult<'_, u8>)
    ensures
        outcome(r) == spec_digit1_as_u8(i@),
{
    let (rest, v) = decimal(i, 255)?;
    Ok((rest, v as u8))
}

/// A colour code.
pub fn color_id(i: &[u8]) -> (r: PResult<'_, u32>)
    ensures
        outcome(r) == spec_color_id(i@),
{
    decimal(i, u32::MAX)
}

/// What nom's `float` makes of the start of a byte string: the input left
/// after the number it read, or the input where it stopped.
pub enum FloatScan<'a> {
    Number(&'a [u8]),
    Error(&'a [u8]),
    Failure(&'a [u8]),
    Incomplete,
}

pub enum FloatScanModel {
    Number(Seq<u8>),
    Error(Seq<u8>),
    Failure(Seq<u8>),
    Incomplete,
}

impl<'a> View for FloatScan<'a> {
    type V = FloatScanModel;

    open spec fn view(&self) -> FloatScanModel {
        match self {
            FloatScan::Number(rest) => FloatScanModel::Number(rest@),
            FloatScan::Error(at) => FloatScanModel::Error(at@),
            FloatScan::Failure(at) => FloatScanModel::Failure(at@),
            FloatScan::Incomplete => FloatScanModel::Incomplete,
        }
    }
}

/// The length of an optional sign, '+' or '-', at the start of `s`.
pub open spec fn sign_len(s: Seq<u8>) -> int {
    if s.len() > 0 && (s[0] == 43 || s[0] == 45) {
        1
    } else {
        0
    }
}

/// The length of the digits and decimal point that begin `t`: digits, with an
/// optional '.' and optional digits after it, or a '.' followed by digits;
/// -1 where `t` begins with neither.
pub open spec fn mantissa_len(t: Seq<u8>) -> int {
    let d = span(t, ByteClass::Digit) as int;
    if d > 0 {
        if d < t.len() && t[d] == 46 {
            d + 1 + span(t.skip(d + 1), ByteClass::Digit)
        } else {
            d
        }
    } else if t.len() > 0 && t[0] == 46 && span(t.skip(1), ByteClass::Digit) > 0 {
        1 + span(t.skip(1), ByteClass::Digit) as int
    } else {
        -1
    }
}

/// What nom's `float` recognizes at the start of `s`: an optional sign, the
/// digits and decimal point, and an optional exponent ('e' or 'E', an
/// optional sign, and digits), leaving what follows; where the exponent has
/// no digits, a failure at `s`. Where no digits begin the number, "nan" or
/// "inf" in any case (so "infinity" leaves "inity"), and otherwise an error
/// at `s`.
pub open spec fn spec_float_scan(s: Seq<u8>) -> FloatScanModel {
    let t = s.skip(sign_len(s));
    let m = mantissa_len(t);
    if m >= 0 {
        let u = t.skip(m);
        if u.len() > 0 && (u[0] == 101 || u[0] == 69) {
            let v = u.skip(1 + sign_len(u.skip(1)));
            let e = span(v, ByteClass::Digit) as int;
            if e > 0 {
                FloatScanModel::Number(v.skip(e))
            } else {
                FloatScanModel::Failure(s)
            }
        } else {
            FloatScanModel::Number(u)
        }
    } else if starts_with_no_case(s, seq![110u8, 97u8, 110u8]) || starts_with_no_case(
        s,
        seq![105u8, 110u8, 102u8],
    ) {
        FloatScanModel::Number(s.skip(3))
    } else {
        FloatScanModel::Error(s)
    }
}

/// Calls `nom::number::complete::float`, which recognizes a floating-point
/// number at the start of `input` and converts its text; keeps where it
/// stopped and drops the value. Trusted: its result is `spec_float_scan(input@)`,
/// the grammar that nom's `recognize_float_or_exceptions` accepts (the
/// conversion that follows accepts every text that grammar gives).
#[verifier::external_body]
fn scan_float(input: &[u8]) -> (r: FloatScan<'_>)
    ensures
        r@ == spec_float_scan(input@),
{
    match nom::number::complete::float::<&[u8], nom::error::Error<&[u8]>>(input) {
        Ok((rest, _value)) => FloatScan::Number(rest),
        Err(nom::Err::Error(e)) => FloatScan::Error(e.input),
        Err(nom::Err::Failure(e)) => FloatScan::Failure(e.input),
        Err(nom::Err::Incomplete(_)) => FloatScan::Incomplete,
    }
}

/// A number read from `s`, given what nom's `float` made of `s`: the text
/// that it consumed. (A scan that would leave more than `s`, or that asks for
/// more input, is taken as a failure; nom's complete parser does neither.)
pub open spec fn spec_float_from_scan(s: Seq<u8>, scan: FloatScanModel) -> Outcome<Seq<u8>> {
    match scan {
        FloatScanModel::Number(rest) => if rest.len() <= s.len() {
            Outcome::Done(rest, s.take(s.len() - rest.len()))
        } else {
            Outcome::Failure(s, ErrorKind::Float)
        },
        FloatScanModel::Error(at) => Outcome::Error(at, ErrorKind::Float),
        FloatScanModel::Failure(at) => Outcome::Failure(at, ErrorKind::Float),
        FloatScanModel::Incomplete => Outcome::Failure(s, ErrorKind::Float),
    }
}

/// A floating-point number, kept as its text.
pub open spec fn spec_float(s: Seq<u8>) -> Outcome<Seq<u8>> {
    spec_float_from_scan(s, spec_float_scan(s))
}

/// Builds the number read from `i`, given what nom's `float` made of `i`.
pub fn float_from_scan<'a>(i: &'a [u8], scan: FloatScan<'a>) -> (r: PResult<'a, FloatText>)
    ensures
        outcome(r) == spec_float_from_scan(i@, scan@),
{
    match scan {
        FloatScan::Number(rest) => if rest.len() <= i.len() {
            let (_, text) = split_at(i, i.len() - rest.len());
            Ok((rest, FloatText { text: slice_to_vec(text) }))
        } else {
            Err(ParseErr::Failure(i, ErrorKind::Float))
        },
        FloatScan::Error(at) => Err(ParseErr::Error(at, ErrorKind::Float)),
        FloatScan::Failure(at) => Err(ParseErr::Failure(at, ErrorKind::Float)),
        FloatScan::Incomplete => Err(ParseErr::Failure(i, ErrorKind::Float)),
    }
}

/// A floating-point number.
pub fn float(i: &[u8]) -> (r: PResult<'_, FloatText>)
    ensures
        outcome(r) == spec_float(i@),
{
    let scan = scan_float(i);
    float_from_scan(i, scan)
}

/// Two numbers separated by spaces.
pub open spec fn spec_read_vec2(s: Seq<u8>) -> Outcome<Vec2Model> {
    step(
        spec_float(s),
        |r1: Seq<u8>, x: Seq<u8>|
            step(
                spec_sp(r1),
                |r2: Seq<u8>, a: Seq<u8>|
                    step(spec_float(r2), |r3: Seq<u8>, y: Seq<u8>| Outcome::Done(r3, Vec2Model { x, y })),
            ),
    )
}

/// Three numbers separated by spaces.
pub open spec fn spec_read_vec3(s: Seq<u8>) -> Outcome<Vec3Model> {
    step(
        spec_float(s),
        |r1: Seq<u8>, x: Seq<u8>|
            step(
                spec_sp(r1),
                |r2: Seq<u8>, a: Seq<u8>|
                    step(
                        spec_float(r2),
                        |r3: Seq<u8>, y: Seq<u8>|
                            step(
                                spec_sp(r3),
                                |r4: Seq<u8>, b: Seq<u8>|
                                    step(
                                        spec_float(r4),
                                        |r5: Seq<u8>, z: Seq<u8>| Outcome::Done(r5, Vec3Model { x, y, z }),
                                    ),
                            ),
                    ),
            ),
    )
}

pub fn read_vec2(i: &[u8]) -> (r: PResult<'_, Vec2>)
    ensures
        outcome(r) == spec_read_vec2(i@),
{
    let (i, x) = float(i)?;
    let (i, _) = sp(i)?;
    let (i, y) = float(i)?;
    Ok((i, Vec2 { x, y }))
}

pub fn read_vec3(i: &[u8]) -> (r: PResult<'_, Vec3>)
    ensures
        outcome(r) == spec_read_vec3(i@),
{
    let (i, x) = float(i)?;
    let (i, _) = sp(i)?;
    let (i, y) = float(i)?;
    let (i, _) = sp(i)?;
    let (i, z) = float(i)?;
    Ok((i, Vec3 { x, y, z }))
}

pub broadcast proof fn lemma_float_well_formed(s: Seq<u8>)
    ensures
        well_formed(#[trigger] spec_float(s), s),
{
}

pub broadcast proof fn lemma_hex_color_well_formed(s: Seq<u8>)
    ensures
        well_formed(#[trigger] spec_hex_color(s), s),
{
    broadcast use crate::bytes::group_bytes_well_formed;
}

pub broadcast proof fn lemma_decimal_well_formed(s: Seq<u8>, max: u32)
    ensures
        well_formed(#[trigger] spec_decimal(s, max), s),
{
    broadcast use crate::bytes::group_bytes_well_formed;
}

pub broadcast proof fn lemma_read_vec2_well_formed(s: Seq<u8>)
    ensures
        well_formed(#[trigger] spec_read_vec2(s), s),
{
    broadcast use crate::bytes::group_bytes_well_formed, lemma_float_well_formed;
}

pub broadcast proof fn lemma_read_vec3_well_formed(s: Seq<u8>)
    ensures
        well_formed(#[trigger] spec_read_vec3(s), s),
{
    broadcast use crate::bytes::group_bytes_well_formed, lemma_float_well_formed;
}

pub broadcast group group_number_well_formed {
    lemma_float_well_formed,
    lemma_hex_color_well_formed,
    lemma_decimal_well_formed,
    lemma_read_vec2_well_formed,
    lemma_read_vec3_well_formed,
}

} // verus!
