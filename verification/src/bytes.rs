//! Classes of bytes, and the parsers that take runs of them.

use vstd::prelude::*;
use vstd::slice::slice_subrange;
use crate::outcome::{outcome, step, well_formed, ErrorKind, Outcome, PResult, ParseErr};

verus! {

/// "Whitespace is defined as one or more spaces (#32), tabs (#9), or combination thereof."
#[verifier::allow_in_spec]
pub fn is_space(chr: u8) -> bool
    returns
        chr == 9u8 || chr == 32u8,
{
    chr == 9u8 || chr == 32u8
}

/// A <CR> or <LF>.
#[verifier::allow_in_spec]
pub fn is_cr_or_lf(chr: u8) -> bool
    returns
        chr == 10u8 || chr == 13u8,
{
    chr == 10u8 || chr == 13u8
}

/// An ASCII decimal digit.
#[verifier::allow_in_spec]
pub fn is_digit(chr: u8) -> bool
    returns
        48u8 <= chr <= 57u8,
{
    48u8 <= chr && chr <= 57u8
}

/// The runs of bytes that the parsers take.
#[derive(Clone, Copy, PartialEq, Eq, Structural)]
pub enum ByteClass {
    Space,
    SpaceOrEol,
    NotCrOrLf,
    NotSpace,
    NotCommaOrEol,
    Digit,
}

pub open spec fn in_class(c: u8, k: ByteClass) -> bool {
    match k {
        ByteClass::Space => is_space(c),
        ByteClass::SpaceOrEol => is_space(c) || is_cr_or_lf(c),
        ByteClass::NotCrOrLf => !is_cr_or_lf(c),
        ByteClass::NotSpace => !is_space(c),
        ByteClass::NotCommaOrEol => c != 44u8 && !is_cr_or_lf(c),
        ByteClass::Digit => is_digit(c),
    }
}

fn class_contains(c: u8, k: ByteClass) -> (r: bool)
    ensures
        r == in_class(c, k),
{
    match k {
        ByteClass::Space => is_space(c),
        ByteClass::SpaceOrEol => is_space(c) || is_cr_or_lf(c),
        ByteClass::NotCrOrLf => !is_cr_or_lf(c),
        ByteClass::NotSpace => !is_space(c),
        ByteClass::NotCommaOrEol => c != 44u8 && !is_cr_or_lf(c),
        ByteClass::Digit => is_digit(c),
    }
}

/// The number of leading bytes of `s` in the class `k`.
pub open spec fn span(s: Seq<u8>, k: ByteClass) -> nat
    decreases s.len(),
{
    if s.len() > 0 && in_class(s[0], k) {
        1 + span(s.drop_first(), k)
    } else {
        0
    }
}

/// `n` leading bytes in the class, and the next one (if any) outside it.
proof fn lemma_span_is(s: Seq<u8>, k: ByteClass, n: int)
    requires
        0 <= n <= s.len(),
        forall|j: int| 0 <= j < n ==> in_class(#[trigger] s[j], k),
        n == s.len() || !in_class(s[n], k),
    ensures
        span(s, k) == n,
    decreases n,
{
    if n > 0 {
        let t = s.drop_first();
        assert forall|j: int| 0 <= j < n - 1 implies in_class(#[trigger] t[j], k) by {
            assert(t[j] == s[j + 1]);
        }
        if n - 1 < t.len() {
            assert(t[n - 1] == s[n]);
        }
        lemma_span_is(t, k, n - 1);
    }
}

pub proof fn lemma_span_bound(s: Seq<u8>, k: ByteClass)
    ensures
        span(s, k) <= s.len(),
    decreases s.len(),
{
    if s.len() > 0 && in_class(s[0], k) {
        lemma_span_bound(s.drop_first(), k);
    }
}

/// The first `n` bytes after a span are in the class.
pub proof fn lemma_span_prefix(s: Seq<u8>, k: ByteClass, j: int)
    requires
        0 <= j < span(s, k),
    ensures
        in_class(s[j], k),
    decreases j,
{
    lemma_span_bound(s, k);
    if j > 0 {
        lemma_span_prefix(s.drop_first(), k, j - 1);
        assert(s.drop_first()[j - 1] == s[j]);
    }
}

/// A span is not changed by what follows it, where it ends before the end of
/// `a` or the next byte is outside the class.
pub proof fn lemma_span_concat(a: Seq<u8>, b: Seq<u8>, k: ByteClass)
    requires
        span(a, k) < a.len() || b.len() == 0 || !in_class(b[0], k),
    ensures
        span(a + b, k) == span(a, k),
    decreases a.len(),
{
    if a.len() > 0 && in_class(a[0], k) {
        assert((a + b).drop_first() =~= a.drop_first() + b);
        lemma_span_concat(a.drop_first(), b, k);
    } else if a.len() == 0 {
        assert(a + b =~= b);
    }
}

fn span_len(i: &[u8], k: ByteClass) -> (n: usize)
    ensures
        n == span(i@, k),
{
    let mut n: usize = 0;
    while n < i.len() && class_contains(i[n], k)
        invariant
            n <= i@.len(),
            forall|j: int| 0 <= j < n ==> in_class(#[trigger] i@[j], k),
        decreases i@.len() - n,
    {
        n = n + 1;
    }
    proof {
        lemma_span_is(i@, k, n as int);
    }
    n
}

/// The longest prefix of bytes in the class; never fails.
pub open spec fn spec_take_while(s: Seq<u8>, k: ByteClass) -> Outcome<Seq<u8>> {
    let n = span(s, k) as int;
    Outcome::Done(s.skip(n), s.take(n))
}

/// The longest prefix of bytes in the class; fails with `e` where it is empty.
pub open spec fn spec_take_while1(s: Seq<u8>, k: ByteClass, e: ErrorKind) -> Outcome<Seq<u8>> {
    let n = span(s, k) as int;
    if n == 0 {
        Outcome::Error(s, e)
    } else {
        Outcome::Done(s.skip(n), s.take(n))
    }
}

/// Splits `i` after `n` bytes: the rest, and the part taken.
pub fn split_at<'a>(i: &'a [u8], n: usize) -> (r: (&'a [u8], &'a [u8]))
    requires
        n <= i@.len(),
    ensures
        r.0@ == i@.skip(n as int),
        r.1@ == i@.take(n as int),
{
    (slice_subrange(i, n, i.len()), slice_subrange(i, 0, n))
}

pub fn take_while<'a>(i: &'a [u8], k: ByteClass) -> (r: PResult<'a, &'a [u8]>)
    ensures
        outcome(r) == spec_take_while(i@, k),
{
    let n = span_len(i, k);
    proof {
        lemma_span_bound(i@, k);
    }
    Ok(split_at(i, n))
}

pub fn take_while1<'a>(i: &'a [u8], k: ByteClass, e: ErrorKind) -> (r: PResult<'a, &'a [u8]>)
    ensures
        outcome(r) == spec_take_while1(i@, k, e),
{
    let n = span_len(i, k);
    proof {
        lemma_span_bound(i@, k);
    }
    if n == 0 {
        Err(ParseErr::Error(i, e))
    } else {
        Ok(split_at(i, n))
    }
}

/// Zero or more spaces; never fails.
pub open spec fn spec_space0(s: Seq<u8>) -> Outcome<Seq<u8>> {
    spec_take_while(s, ByteClass::Space)
}

/// One or more spaces.
pub open spec fn spec_sp(s: Seq<u8>) -> Outcome<Seq<u8>> {
    spec_take_while1(s, ByteClass::Space, ErrorKind::Space)
}

/// Zero or more spaces and end-of-line bytes; never fails.
pub open spec fn spec_space_or_eol0(s: Seq<u8>) -> Outcome<Seq<u8>> {
    spec_take_while(s, ByteClass::SpaceOrEol)
}

/// Everything up to the first <CR> or <LF>; never fails.
pub open spec fn spec_take_not_cr_or_lf(s: Seq<u8>) -> Outcome<Seq<u8>> {
    spec_take_while(s, ByteClass::NotCrOrLf)
}

/// Everything up to the first space or tab; never fails.
pub open spec fn spec_take_not_space(s: Seq<u8>) -> Outcome<Seq<u8>> {
    spec_take_while(s, ByteClass::NotSpace)
}

/// One or more bytes that are neither a comma nor an end-of-line byte.
pub open spec fn spec_take_not_comma_or_eol(s: Seq<u8>) -> Outcome<Seq<u8>> {
    spec_take_while1(s, ByteClass::NotCommaOrEol, ErrorKind::TakeWhile1)
}

/// The bytes of `t`, exactly.
pub open spec fn spec_tag(s: Seq<u8>, t: Seq<u8>) -> Outcome<Seq<u8>> {
    if t.len() <= s.len() && s.take(t.len() as int) == t {
        Outcome::Done(s.skip(t.len() as int), t)
    } else {
        Outcome::Error(s, ErrorKind::Tag)
    }
}

/// An ASCII letter in lower case; every other byte unchanged.
pub open spec fn lowercase(c: u8) -> u8 {
    if 65 <= c <= 90 {
        (c + 32) as u8
    } else {
        c
    }
}

/// `s` begins with the bytes of `t`, ASCII letters compared without case.
pub open spec fn starts_with_no_case(s: Seq<u8>, t: Seq<u8>) -> bool {
    &&& t.len() <= s.len()
    &&& forall|j: int| 0 <= j < t.len() ==> lowercase(#[trigger] s[j]) == lowercase(t[j])
}

/// The bytes of `t`, ASCII letters in either case.
pub open spec fn spec_tag_no_case(s: Seq<u8>, t: Seq<u8>) -> Outcome<Seq<u8>> {
    if starts_with_no_case(s, t) {
        Outcome::Done(s.skip(t.len() as int), s.take(t.len() as int))
    } else {
        Outcome::Error(s, ErrorKind::Tag)
    }
}

/// <LF>, <CR><LF>, or the end of the input.
pub open spec fn spec_end_of_line(s: Seq<u8>) -> Outcome<Seq<u8>> {
    if s.len() == 0 {
        Outcome::Done(s, s)
    } else if s[0] == 10 {
        Outcome::Done(s.skip(1), s.take(1))
    } else if s.len() >= 2 && s[0] == 13 && s[1] == 10 {
        Outcome::Done(s.skip(2), s.take(2))
    } else {
        Outcome::Error(s, ErrorKind::CrLf)
    }
}

/// A single comma.
pub open spec fn spec_single_comma(s: Seq<u8>) -> Outcome<Seq<u8>> {
    if s.len() > 0 && s[0] == 44 {
        Outcome::Done(s.skip(1), s.take(1))
    } else {
        Outcome::Error(s, ErrorKind::Tag)
    }
}

/// The command ID (one or more digits), and the spaces after it.
pub open spec fn spec_read_cmd_id_str(s: Seq<u8>) -> Outcome<Seq<u8>> {
    step(
        spec_take_while1(s, ByteClass::Digit, ErrorKind::Digit),
        |rest: Seq<u8>, id: Seq<u8>| step(spec_space0(rest), |rest2: Seq<u8>, sp: Seq<u8>| Outcome::Done(rest2, id)),
    )
}

/// Optional spaces followed by the end of the line.
pub open spec fn spec_empty_line(s: Seq<u8>) -> Outcome<Seq<u8>> {
    step(
        spec_space0(s),
        |rest: Seq<u8>, spaces: Seq<u8>| step(spec_end_of_line(rest), |rest2: Seq<u8>, eol: Seq<u8>| Outcome::Done(rest2, spaces)),
    )
}

pub fn take_spaces(i: &[u8]) -> (r: PResult<'_, &[u8]>)
    ensures
        outcome(r) == spec_space0(i@),
{
    take_while(i, ByteClass::Space)
}

/// Zero or more "spaces", as defined in LDraw standard. Valid even on empty input.
pub fn space0(i: &[u8]) -> (r: PResult<'_, &[u8]>)
    ensures
        outcome(r) == spec_space0(i@),
        r is Ok,
{
    take_while(i, ByteClass::Space)
}

/// One or more "spaces", as defined in LDraw standard.
pub fn sp(i: &[u8]) -> (r: PResult<'_, &[u8]>)
    ensures
        outcome(r) == spec_sp(i@),
{
    take_while1(i, ByteClass::Space, ErrorKind::Space)
}

/// Zero or more spaces or end-of-line bytes. Valid even on empty input.
pub fn space_or_eol0(i: &[u8]) -> (r: PResult<'_, &[u8]>)
    ensures
        outcome(r) == spec_space_or_eol0(i@),
        r is Ok,
{
    take_while(i, ByteClass::SpaceOrEol)
}

/// Any bytes but <CR> and <LF>, potentially until the end of input.
pub fn take_not_cr_or_lf(i: &[u8]) -> (r: PResult<'_, &[u8]>)
    ensures
        outcome(r) == spec_take_not_cr_or_lf(i@),
        r is Ok,
{
    take_while(i, ByteClass::NotCrOrLf)
}

/// Any bytes but spaces and tabs, potentially until the end of input.
pub fn take_not_space(i: &[u8]) -> (r: PResult<'_, &[u8]>)
    ensures
        outcome(r) == spec_take_not_space(i@),
        r is Ok,
{
    take_while(i, ByteClass::NotSpace)
}

/// Any bytes but a comma, <CR> or <LF>; invalid on empty input.
pub fn take_not_comma_or_eol(i: &[u8]) -> (r: PResult<'_, &[u8]>)
    ensures
        outcome(r) == spec_take_not_comma_or_eol(i@),
{
    take_while1(i, ByteClass::NotCommaOrEol, ErrorKind::TakeWhile1)
}

pub fn tag<'a>(i: &'a [u8], t: &[u8]) -> (r: PResult<'a, &'a [u8]>)
    ensures
        outcome(r) == spec_tag(i@, t@),
{
    if t.len() > i.len() {
        return Err(ParseErr::Error(i, ErrorKind::Tag));
    }
    let mut j: usize = 0;
    while j < t.len()
        invariant
            t@.len() <= i@.len(),
            j <= t@.len(),
            forall|m: int| 0 <= m < j ==> i@[m] == t@[m],
        decreases t@.len() - j,
    {
        if i[j] != t[j] {
            assert(i@.take(t@.len() as int)[j as int] != t@[j as int]);
            return Err(ParseErr::Error(i, ErrorKind::Tag));
        }
        j = j + 1;
    }
    assert(i@.take(t@.len() as int) =~= t@);
    Ok(split_at(i, t.len()))
}

fn lowercase_byte(c: u8) -> (r: u8)
    ensures
        r == lowercase(c),
{
    if 65u8 <= c && c <= 90u8 {
        c + 32
    } else {
        c
    }
}

pub fn tag_no_case<'a>(i: &'a [u8], t: &[u8]) -> (r: PResult<'a, &'a [u8]>)
    ensures
        outcome(r) == spec_tag_no_case(i@, t@),
{
    if t.len() > i.len() {
        return Err(ParseErr::Error(i, ErrorKind::Tag));
    }
    let mut j: usize = 0;
    while j < t.len()
        invariant
            t@.len() <= i@.len(),
            j <= t@.len(),
            forall|m: int| 0 <= m < j ==> lowercase(#[trigger] i@[m]) == lowercase(t@[m]),
        decreases t@.len() - j,
    {
        if lowercase_byte(i[j]) != lowercase_byte(t[j]) {
            return Err(ParseErr::Error(i, ErrorKind::Tag));
        }
        j = j + 1;
    }
    Ok(split_at(i, t.len()))
}

/// <CR><LF> or <LF>, or the end of the input.
pub fn end_of_line(i: &[u8]) -> (r: PResult<'_, &[u8]>)
    ensures
        outcome(r) == spec_end_of_line(i@),
{
    if i.len() == 0 {
        proof {
            assert(i@.take(0) =~= i@);
        }
        Ok(split_at(i, 0))
    } else if i[0] == 10u8 {
        Ok(split_at(i, 1))
    } else if i.len() >= 2 && i[0] == 13u8 && i[1] == 10u8 {
        Ok(split_at(i, 2))
    } else {
        Err(ParseErr::Error(i, ErrorKind::CrLf))
    }
}

/// A single comma ','.
pub fn single_comma(i: &[u8]) -> (r: PResult<'_, &[u8]>)
    ensures
        outcome(r) == spec_single_comma(i@),
{
    if i.len() > 0 && i[0] == 44u8 {
        Ok(split_at(i, 1))
    } else {
        Err(ParseErr::Error(i, ErrorKind::Tag))
    }
}

/// Reads the command ID and swallows the following spaces, if any.
pub fn read_cmd_id_str(i: &[u8]) -> (r: PResult<'_, &[u8]>)
    ensures
        outcome(r) == spec_read_cmd_id_str(i@),
{
    let (i, o) = take_while1(i, ByteClass::Digit, ErrorKind::Digit)?;
    let (i, _) = space0(i)?;
    Ok((i, o))
}

/// An empty line made of optional spaces, ending with <CR><LF>, <LF> or the end of input.
pub fn empty_line(i: &[u8]) -> (r: PResult<'_, &[u8]>)
    ensures
        outcome(r) == spec_empty_line(i@),
{
    let (i, o) = space0(i)?;
    let (i, _) = end_of_line(i)?;
    Ok((i, o))
}

pub broadcast proof fn lemma_take_while_well_formed(s: Seq<u8>, k: ByteClass)
    ensures
        well_formed(#[trigger] spec_take_while(s, k), s),
{
    lemma_span_bound(s, k);
}

pub broadcast proof fn lemma_take_while1_well_formed(s: Seq<u8>, k: ByteClass, e: ErrorKind)
    ensures
        well_formed(#[trigger] spec_take_while1(s, k, e), s),
{
    lemma_span_bound(s, k);
}

pub broadcast proof fn lemma_tag_well_formed(s: Seq<u8>, t: Seq<u8>)
    ensures
        well_formed(#[trigger] spec_tag(s, t), s),
{
}

pub broadcast proof fn lemma_tag_no_case_well_formed(s: Seq<u8>, t: Seq<u8>)
    ensures
        well_formed(#[trigger] spec_tag_no_case(s, t), s),
{
}

pub broadcast proof fn lemma_end_of_line_well_formed(s: Seq<u8>)
    ensures
        well_formed(#[trigger] spec_end_of_line(s), s),
{
}

pub broadcast proof fn lemma_single_comma_well_formed(s: Seq<u8>)
    ensures
        well_formed(#[trigger] spec_single_comma(s), s),
{
}

/// The command ID is at least one digit: reading it always moves on.
pub broadcast proof fn lemma_read_cmd_id_str_progress(s: Seq<u8>)
    ensures
        #[trigger] spec_read_cmd_id_str(s) matches Outcome::Done(rest, _) ==> rest.len() < s.len(),
{
    lemma_span_bound(s, ByteClass::Digit);
    let n = span(s, ByteClass::Digit) as int;
    lemma_span_bound(s.skip(n), ByteClass::Space);
}

pub broadcast group group_bytes_well_formed {
    lemma_take_while_well_formed,
    lemma_take_while1_well_formed,
    lemma_tag_well_formed,
    lemma_tag_no_case_well_formed,
    lemma_end_of_line_well_formed,
    lemma_single_comma_well_formed,
}

} // verus!
