//! Inputs alike: the same tokens, separated by any runs of spaces and tabs,
//! with the keywords of a material in any case. The parsers of line commands
//! and of GLITTER materials read such inputs alike.

use vstd::prelude::*;
use crate::bytes::{
    in_class, is_space, lemma_span_bound, lemma_span_concat, lowercase, span, spec_sp,
    spec_space0, spec_tag, spec_tag_no_case, spec_take_while1, starts_with_no_case, ByteClass,
};
use crate::geometry::{spec_line_cmd, spec_sp_vec3};
use crate::number::{spec_color_id, spec_hex_color, spec_read_vec3};
use crate::colour::{
    spec_colour_alpha, spec_colour_luminance, spec_glitter_material, spec_grain_min_max_size,
    spec_grain_size, spec_material_grain_size, spec_material_head, spec_sp_word_sp,
    spec_tagged_u8, spec_word_sp,
};
use crate::number::{
    mantissa_len, sign_len, spec_decimal, spec_float, spec_float_scan, spec_hex_primary,
    spec_two_hex_digits, FloatScanModel,
};
use crate::outcome::ErrorKind;
use crate::keywords;
use crate::laws::lemma_span_after;
use crate::outcome::{optional, Outcome};
use crate::tokens::same_but_case;

verus! {

/// GLITTER, VALUE, FRACTION and VFRACTION: the keywords of a material that
/// are read without regard to case.
pub open spec fn is_material_keyword(kw: Seq<u8>) -> bool {
    ||| kw == keywords::GLITTER@
    ||| kw == keywords::VALUE@
    ||| kw == keywords::FRACTION@
    ||| kw == keywords::VFRACTION@
}

/// A token, with a material keyword in any case written in capitals.
pub open spec fn canon(w: Seq<u8>) -> Seq<u8> {
    if same_but_case(w, keywords::GLITTER@) {
        keywords::GLITTER@
    } else if same_but_case(w, keywords::VALUE@) {
        keywords::VALUE@
    } else if same_but_case(w, keywords::FRACTION@) {
        keywords::FRACTION@
    } else if same_but_case(w, keywords::VFRACTION@) {
        keywords::VFRACTION@
    } else {
        w
    }
}

/// `s` with each run of spaces and tabs written as one space, and each
/// material keyword in capitals.
pub open spec fn normal(s: Seq<u8>) -> Seq<u8>
    decreases s.len(),
{
    if s.len() == 0 {
        Seq::empty()
    } else if is_space(s[0]) {
        proof {
            lemma_span_bound(s, ByteClass::Space);
        }
        seq![32u8] + normal(s.skip(span(s, ByteClass::Space) as int))
    } else {
        proof {
            lemma_span_bound(s, ByteClass::NotSpace);
        }
        let n = span(s, ByteClass::NotSpace) as int;
        canon(s.take(n)) + normal(s.skip(n))
    }
}

/// Two inputs alike: the same tokens, up to the case of the material
/// keywords, separated by runs of spaces and tabs of any length.
pub open spec fn alike(s1: Seq<u8>, s2: Seq<u8>) -> bool {
    normal(s1) == normal(s2)
}

/// Two parses alike: the same value with what is left alike, or the same
/// error.
pub open spec fn read_alike<V>(o1: Outcome<V>, o2: Outcome<V>) -> bool {
    match o1 {
        Outcome::Done(r1, v1) => o2 matches Outcome::Done(r2, v2) && v1 == v2 && alike(r1, r2),
        Outcome::Error(_, k1) => o2 matches Outcome::Error(_, k2) && k1 == k2,
        Outcome::Failure(_, k1) => o2 matches Outcome::Failure(_, k2) && k1 == k2,
    }
}

/// Two steps alike but for the text they took, which the parsers drop (the
/// separators and the keywords).
pub open spec fn moves_alike<V>(o1: Outcome<V>, o2: Outcome<V>) -> bool {
    match o1 {
        Outcome::Done(r1, _) => o2 matches Outcome::Done(r2, _) && alike(r1, r2),
        Outcome::Error(_, k1) => o2 matches Outcome::Error(_, k2) && k1 == k2,
        Outcome::Failure(_, k1) => o2 matches Outcome::Failure(_, k2) && k1 == k2,
    }
}

/// Bytes that hold no space nor tab.
pub open spec fn no_space(w: Seq<u8>) -> bool {
    forall|j: int| 0 <= j < w.len() ==> !is_space(#[trigger] w[j])
}

/// What may follow a token: nothing, or a space or tab.
pub open spec fn token_end(r: Seq<u8>) -> bool {
    r.len() == 0 || is_space(r[0])
}

/// What may follow a token or the end of a line: nothing, a space or tab,
/// <CR> or <LF>.
pub open spec fn stops(r: Seq<u8>) -> bool {
    r.len() == 0 || is_space(r[0]) || crate::bytes::is_cr_or_lf(r[0])
}

proof fn lemma_keywords_have_no_space()
    ensures
        no_space(keywords::GLITTER@),
        no_space(keywords::VALUE@),
        no_space(keywords::FRACTION@),
        no_space(keywords::VFRACTION@),
        crate::laws::is_one_line(keywords::GLITTER@),
        crate::laws::is_one_line(keywords::VALUE@),
        crate::laws::is_one_line(keywords::FRACTION@),
        crate::laws::is_one_line(keywords::VFRACTION@),
{
}

/// A token written as in `canon` is still a token.
proof fn lemma_canon_token(w: Seq<u8>)
    requires
        w.len() > 0,
        no_space(w),
    ensures
        canon(w).len() > 0,
        no_space(canon(w)),
{
    lemma_keywords_have_no_space();
}

/// A token followed by what may follow a token.
pub proof fn lemma_normal_token(w: Seq<u8>, r: Seq<u8>)
    requires
        w.len() > 0,
        no_space(w),
        token_end(r),
    ensures
        normal(w + r) == canon(w) + normal(r),
{
    let s = w + r;
    assert(!is_space(w[0]));
    assert(s[0] == w[0]);
    assert forall|j: int| 0 <= j < w.len() implies in_class(#[trigger] w[j], ByteClass::NotSpace) by {
        assert(!is_space(w[j]));
    }
    lemma_span_after(w, r, ByteClass::NotSpace);
    if r.len() > 0 {
        assert(!in_class(r[0], ByteClass::NotSpace));
    }
    assert(span(r, ByteClass::NotSpace) == 0);
    assert(s.take(w.len() as int) =~= w);
    assert(s.skip(w.len() as int) =~= r);
}

/// The normal form is empty only for an empty input, and begins with a space
/// exactly where the input does.
pub proof fn lemma_normal_head(s: Seq<u8>)
    ensures
        normal(s).len() == 0 <==> s.len() == 0,
        s.len() > 0 ==> (normal(s)[0] == 32u8 <==> is_space(s[0])),
{
    if s.len() > 0 && !is_space(s[0]) {
        lemma_span_bound(s, ByteClass::NotSpace);
        let n = span(s, ByteClass::NotSpace) as int;
        assert forall|j: int| 0 <= j < n implies !is_space(#[trigger] s.take(n)[j]) by {
            crate::bytes::lemma_span_prefix(s, ByteClass::NotSpace, j);
        }
        lemma_canon_token(s.take(n));
        assert(canon(s.take(n))[0] != 32u8);
    }
}

/// The first token of an input, and what follows it.
pub open spec fn first_token(s: Seq<u8>) -> Seq<u8> {
    s.take(span(s, ByteClass::NotSpace) as int)
}

pub open spec fn after_token(s: Seq<u8>) -> Seq<u8> {
    s.skip(span(s, ByteClass::NotSpace) as int)
}

/// An input that begins with a token is that token and what may follow it.
pub proof fn lemma_token_split(s: Seq<u8>)
    requires
        s.len() > 0,
        !is_space(s[0]),
    ensures
        s == first_token(s) + after_token(s),
        first_token(s).len() > 0,
        no_space(first_token(s)),
        token_end(after_token(s)),
{
    lemma_span_bound(s, ByteClass::NotSpace);
    let n = span(s, ByteClass::NotSpace) as int;
    assert forall|j: int| 0 <= j < n implies !is_space(#[trigger] s.take(n)[j]) by {
        crate::bytes::lemma_span_prefix(s, ByteClass::NotSpace, j);
    }
    assert(s =~= s.take(n) + s.skip(n));
    if n < s.len() {
        lemma_span_stop(s, ByteClass::NotSpace);
        assert(s.skip(n)[0] == s[n]);
    }
}

/// The byte after a span, where there is one, is outside the class.
pub proof fn lemma_span_stop(s: Seq<u8>, k: ByteClass)
    ensures
        span(s, k) < s.len() ==> !in_class(s[span(s, k) as int], k),
    decreases s.len(),
{
    if s.len() > 0 && in_class(s[0], k) {
        lemma_span_stop(s.drop_first(), k);
        lemma_span_bound(s.drop_first(), k);
        if span(s, k) < s.len() {
            assert(s.drop_first()[span(s.drop_first(), k) as int] == s[span(s, k) as int]);
        }
    }
}

/// Inputs alike begin alike: both empty, both with separators followed by
/// inputs alike, or both with tokens alike followed by inputs alike.
pub proof fn lemma_alike_split(s1: Seq<u8>, s2: Seq<u8>)
    requires
        alike(s1, s2),
    ensures
        s1.len() == 0 <==> s2.len() == 0,
        s1.len() > 0 ==> (is_space(s1[0]) <==> is_space(s2[0])),
        s1.len() > 0 && is_space(s1[0]) ==> alike(
            s1.skip(span(s1, ByteClass::Space) as int),
            s2.skip(span(s2, ByteClass::Space) as int),
        ),
        s1.len() > 0 && !is_space(s1[0]) ==> canon(first_token(s1)) == canon(first_token(s2))
            && alike(after_token(s1), after_token(s2)),
{
    lemma_normal_head(s1);
    lemma_normal_head(s2);
    if s1.len() > 0 && is_space(s1[0]) {
        assert(normal(s1) == seq![32u8] + normal(s1.skip(span(s1, ByteClass::Space) as int)));
        assert(normal(s2) == seq![32u8] + normal(s2.skip(span(s2, ByteClass::Space) as int)));
        assert(normal(s1).skip(1) =~= normal(s1.skip(span(s1, ByteClass::Space) as int)));
        assert(normal(s2).skip(1) =~= normal(s2.skip(span(s2, ByteClass::Space) as int)));
    } else if s1.len() > 0 {
        lemma_token_split(s1);
        lemma_token_split(s2);
        let w1 = first_token(s1);
        let w2 = first_token(s2);
        let r1 = after_token(s1);
        let r2 = after_token(s2);
        lemma_normal_token(w1, r1);
        lemma_normal_token(w2, r2);
        lemma_canon_token(w1);
        lemma_canon_token(w2);
        lemma_normal_head(r1);
        lemma_normal_head(r2);
        let c1 = canon(w1);
        let c2 = canon(w2);
        let n = normal(s1);
        if c1.len() < c2.len() {
            assert(n[c1.len() as int] == c2[c1.len() as int]);
            if r1.len() > 0 {
                assert(n[c1.len() as int] == normal(r1)[0]);
            }
            assert(false);
        }
        if c2.len() < c1.len() {
            assert(n[c2.len() as int] == c1[c2.len() as int]);
            if r2.len() > 0 {
                assert(n[c2.len() as int] == normal(r2)[0]);
            }
            assert(false);
        }
        assert(c1 =~= n.take(c1.len() as int));
        assert(c2 =~= n.take(c1.len() as int));
        assert(normal(r1) =~= n.skip(c1.len() as int));
        assert(normal(r2) =~= n.skip(c1.len() as int));
    }
}

/// A token followed by inputs alike makes inputs alike.
pub proof fn lemma_alike_after_token(w: Seq<u8>, r1: Seq<u8>, r2: Seq<u8>)
    requires
        no_space(w),
        token_end(r1),
        alike(r1, r2),
    ensures
        alike(w + r1, w + r2),
        token_end(r2),
{
    lemma_alike_split(r1, r2);
    if w.len() > 0 {
        lemma_normal_token(w, r1);
        lemma_normal_token(w, r2);
    } else {
        assert(w + r1 =~= r1);
        assert(w + r2 =~= r2);
    }
}

/// Tokens alike are the same token, or one material keyword in two cases.
pub proof fn lemma_canon_alike(w1: Seq<u8>, w2: Seq<u8>)
    requires
        canon(w1) == canon(w2),
    ensures
        w1 == w2 || exists|kw: Seq<u8>| is_material_keyword(kw) && same_but_case(w1, kw) && same_but_case(w2, kw),
{
    if !(w1 == w2) {
        if same_but_case(w1, keywords::GLITTER@) || same_but_case(w1, keywords::VALUE@)
            || same_but_case(w1, keywords::FRACTION@) || same_but_case(w1, keywords::VFRACTION@)
            || same_but_case(w2, keywords::GLITTER@) || same_but_case(w2, keywords::VALUE@)
            || same_but_case(w2, keywords::FRACTION@) || same_but_case(w2, keywords::VFRACTION@) {
            let kw = canon(w1);
            assert(is_material_keyword(kw));
        }
    }
}

/// A parse of a token, with `r` after what was left or where it stopped.
pub open spec fn after<V>(o: Outcome<V>, r: Seq<u8>) -> Outcome<V> {
    match o {
        Outcome::Done(q, v) => Outcome::Done(q + r, v),
        Outcome::Error(at, k) => Outcome::Error(at + r, k),
        Outcome::Failure(at, k) => Outcome::Failure(at + r, k),
    }
}

pub open spec fn scan_after(o: FloatScanModel, r: Seq<u8>) -> FloatScanModel {
    match o {
        FloatScanModel::Number(q) => FloatScanModel::Number(q + r),
        FloatScanModel::Error(at) => FloatScanModel::Error(at + r),
        FloatScanModel::Failure(at) => FloatScanModel::Failure(at + r),
        FloatScanModel::Incomplete => FloatScanModel::Incomplete,
    }
}

/// The digits and decimal point of a number end within its token.
proof fn lemma_mantissa_then(t: Seq<u8>, r: Seq<u8>)
    requires
        stops(r),
    ensures
        mantissa_len(t + r) == mantissa_len(t),
        mantissa_len(t) <= t.len(),
{
    let s = t + r;
    if r.len() > 0 {
        assert(!in_class(r[0], ByteClass::Digit));
    }
    lemma_span_bound(t, ByteClass::Digit);
    lemma_span_concat(t, r, ByteClass::Digit);
    let d = span(t, ByteClass::Digit) as int;
    if d < t.len() {
        assert(s[d] == t[d]);
        assert(s.skip(d + 1) =~= t.skip(d + 1) + r);
        lemma_span_concat(t.skip(d + 1), r, ByteClass::Digit);
        lemma_span_bound(t.skip(d + 1), ByteClass::Digit);
    } else if r.len() > 0 {
        assert(s[d] == r[0]);
    }
    if t.len() > 0 {
        assert(s[0] == t[0]);
        assert(s.skip(1) =~= t.skip(1) + r);
        lemma_span_concat(t.skip(1), r, ByteClass::Digit);
        lemma_span_bound(t.skip(1), ByteClass::Digit);
    } else {
        assert(s =~= r);
    }
}

/// The digits and decimal point of a number are within its input.
pub proof fn lemma_mantissa_bound(t: Seq<u8>)
    ensures
        mantissa_len(t) <= t.len(),
{
    lemma_span_bound(t, ByteClass::Digit);
    let d = span(t, ByteClass::Digit) as int;
    if d < t.len() {
        lemma_span_bound(t.skip(d + 1), ByteClass::Digit);
    }
    if t.len() > 0 {
        lemma_span_bound(t.skip(1), ByteClass::Digit);
    }
}

/// The exponent of a number ends within its token.
proof fn lemma_exponent_then(s: Seq<u8>, u: Seq<u8>, r: Seq<u8>)
    requires
        stops(r),
        u.len() > 0,
        u[0] == 101 || u[0] == 69,
    ensures
        ({
            let v = u.skip(1 + sign_len(u.skip(1)));
            let e = span(v, ByteClass::Digit) as int;
            let vr = (u + r).skip(1 + sign_len((u + r).skip(1)));
            &&& vr == v + r
            &&& span(vr, ByteClass::Digit) == e
            &&& e <= v.len()
        }),
{
    let w = u.skip(1);
    assert((u + r).skip(1) =~= w + r);
    if w.len() > 0 {
        assert((w + r)[0] == w[0]);
    }
    let v = u.skip(1 + sign_len(w));
    let vr = (u + r).skip(1 + sign_len((u + r).skip(1)));
    assert(vr =~= v + r);
    if r.len() > 0 {
        assert(!in_class(r[0], ByteClass::Digit));
    }
    lemma_span_concat(v, r, ByteClass::Digit);
    lemma_span_bound(v, ByteClass::Digit);
}

/// nom's `float` on a token reads the token alone.
#[verifier::rlimit(40)]
proof fn lemma_scan_then(w: Seq<u8>, r: Seq<u8>)
    requires
        stops(r),
    ensures
        spec_float_scan(w + r) == scan_after(spec_float_scan(w), r),
{
    let s = w + r;
    if r.len() == 0 {
        assert(s =~= w);
        match spec_float_scan(w) {
            FloatScanModel::Number(q) => assert(q + r =~= q),
            FloatScanModel::Error(a) => assert(a + r =~= a),
            FloatScanModel::Failure(a) => assert(a + r =~= a),
            FloatScanModel::Incomplete => {},
        }
        return;
    }
    if w.len() > 0 {
        assert(s[0] == w[0]);
    } else {
        assert(s =~= r);
    }
    let sl = sign_len(w);
    assert(sign_len(s) == sl);
    let tw = w.skip(sl);
    let ts = s.skip(sl);
    assert(ts =~= tw + r);
    lemma_mantissa_then(tw, r);
    let m = mantissa_len(tw);
    if m >= 0 {
        let uw = tw.skip(m);
        let us = ts.skip(m);
        assert(us =~= uw + r);
        if uw.len() > 0 {
            assert(us[0] == uw[0]);
            if uw[0] == 101 || uw[0] == 69 {
                lemma_exponent_then(s, uw, r);
                let v = uw.skip(1 + sign_len(uw.skip(1)));
                let e = span(v, ByteClass::Digit) as int;
                assert((v + r).skip(e) =~= v.skip(e) + r);
            }
        } else {
            assert(us =~= r);
            assert(uw + r =~= r);
        }
    } else {
        let nan = seq![110u8, 97u8, 110u8];
        let inf = seq![105u8, 110u8, 102u8];
        if w.len() >= 3 {
            assert(s[0] == w[0] && s[1] == w[1] && s[2] == w[2]);
            assert(starts_with_no_case(s, nan) == starts_with_no_case(w, nan));
            assert(starts_with_no_case(s, inf) == starts_with_no_case(w, inf));
            assert(s.skip(3) =~= w.skip(3) + r);
        } else {
            assert(!starts_with_no_case(w, nan) && !starts_with_no_case(w, inf));
            if s.len() >= 3 {
                let j = w.len() as int;
                assert(s[j] == r[0]);
                assert(lowercase(s[j]) != lowercase(nan[j]));
                assert(lowercase(s[j]) != lowercase(inf[j]));
            }
        }
    }
}

/// A number read from a token: the token alone decides it.
pub proof fn lemma_float_then(w: Seq<u8>, r: Seq<u8>)
    requires
        stops(r),
    ensures
        spec_float(w + r) == after(spec_float(w), r),
{
    lemma_scan_then(w, r);
    let s = w + r;
    if let FloatScanModel::Number(q) = spec_float_scan(w) {
        if q.len() <= w.len() {
            assert(s.take(s.len() - (q + r).len()) =~= w.take(w.len() - q.len()));
        }
    }
}

/// A run of bytes of a class that holds no space, read from a token.
pub proof fn lemma_take_while1_then(w: Seq<u8>, r: Seq<u8>, k: ByteClass, e: ErrorKind)
    requires
        r.len() == 0 || !in_class(r[0], k),
    ensures
        spec_take_while1(w + r, k, e) == after(spec_take_while1(w, k, e), r),
{
    if r.len() > 0 {
        assert(!in_class(r[0], k));
    }
    lemma_span_concat(w, r, k);
    lemma_span_bound(w, k);
    let n = span(w, k) as int;
    assert((w + r).skip(n) =~= w.skip(n) + r);
    assert((w + r).take(n) =~= w.take(n));
}

/// A keyword without spaces, read from a token.
pub proof fn lemma_tag_then(w: Seq<u8>, r: Seq<u8>, kw: Seq<u8>)
    requires
        stops(r),
        no_space(kw),
        crate::laws::is_one_line(kw),
    ensures
        spec_tag(w + r, kw) == after(spec_tag(w, kw), r),
{
    let s = w + r;
    if kw.len() <= w.len() {
        assert(s.take(kw.len() as int) =~= w.take(kw.len() as int));
        assert(s.skip(kw.len() as int) =~= w.skip(kw.len() as int) + r);
    } else if kw.len() <= s.len() {
        let j = w.len() as int;
        assert(s.take(kw.len() as int)[j] == r[0]);
        assert(!is_space(kw[j]) && !crate::bytes::is_cr_or_lf(kw[j]));
    }
}

/// A keyword without spaces, in any case, read from a token.
pub proof fn lemma_tag_no_case_then(w: Seq<u8>, r: Seq<u8>, kw: Seq<u8>)
    requires
        stops(r),
        no_space(kw),
        crate::laws::is_one_line(kw),
    ensures
        spec_tag_no_case(w + r, kw) == after(spec_tag_no_case(w, kw), r),
{
    let s = w + r;
    if kw.len() <= w.len() {
        if starts_with_no_case(w, kw) {
            assert forall|j: int| 0 <= j < kw.len() implies lowercase(#[trigger] s[j]) == lowercase(kw[j]) by {
                assert(s[j] == w[j]);
            }
        }
        if starts_with_no_case(s, kw) {
            assert forall|j: int| 0 <= j < kw.len() implies lowercase(#[trigger] w[j]) == lowercase(kw[j]) by {
                assert(s[j] == w[j]);
                assert(lowercase(s[j]) == lowercase(kw[j]));
            }
        }
        assert(s.take(kw.len() as int) =~= w.take(kw.len() as int));
        assert(s.skip(kw.len() as int) =~= w.skip(kw.len() as int) + r);
    } else if kw.len() <= s.len() {
        let j = w.len() as int;
        assert(s[j] == r[0]);
        assert(!is_space(kw[j]) && !crate::bytes::is_cr_or_lf(kw[j]));
        assert(lowercase(s[j]) != lowercase(kw[j]));
    }
}

/// Two hexadecimal digits, read from a token.
pub proof fn lemma_two_hex_digits_then(w: Seq<u8>, r: Seq<u8>)
    requires
        stops(r),
    ensures
        spec_two_hex_digits(w + r) == after(spec_two_hex_digits(w), r),
{
    let s = w + r;
    if w.len() >= 2 {
        assert(s[0] == w[0] && s[1] == w[1]);
        assert(s.take(2) =~= w.take(2));
        assert(s.skip(2) =~= w.skip(2) + r);
    } else if r.len() > 0 {
        if w.len() == 1 {
            assert(s[1] == r[0]);
        } else {
            assert(s[0] == r[0]);
        }
    }
}

/// Bytes put before inputs alike leave them alike.
pub proof fn lemma_alike_prefix(q: Seq<u8>, r1: Seq<u8>, r2: Seq<u8>)
    requires
        token_end(r1),
        alike(r1, r2),
    ensures
        alike(q + r1, q + r2),
    decreases q.len(),
{
    lemma_alike_split(r1, r2);
    if q.len() == 0 {
        assert(q + r1 =~= r1);
        assert(q + r2 =~= r2);
    } else if !is_space(q[0]) {
        lemma_token_split(q);
        let w = first_token(q);
        let q2 = after_token(q);
        assert(q + r1 =~= w + (q2 + r1));
        assert(q + r2 =~= w + (q2 + r2));
        if q2.len() > 0 {
            assert((q2 + r1)[0] == q2[0]);
            assert((q2 + r2)[0] == q2[0]);
        } else {
            assert(q2 + r1 =~= r1);
            assert(q2 + r2 =~= r2);
        }
        lemma_span_bound(q, ByteClass::NotSpace);
        lemma_alike_prefix(q2, r1, r2);
        lemma_normal_token(w, q2 + r1);
        lemma_normal_token(w, q2 + r2);
    } else {
        lemma_span_bound(q, ByteClass::Space);
        let n = span(q, ByteClass::Space) as int;
        let q2 = q.skip(n);
        assert((q + r1)[0] == q[0] && (q + r2)[0] == q[0]);
        if q2.len() > 0 {
            lemma_span_stop(q, ByteClass::Space);
            assert(q2[0] == q[n]);
            lemma_span_concat(q, r1, ByteClass::Space);
            lemma_span_concat(q, r2, ByteClass::Space);
            assert((q + r1).skip(n) =~= q2 + r1);
            assert((q + r2).skip(n) =~= q2 + r2);
            lemma_alike_prefix(q2, r1, r2);
        } else {
            assert forall|j: int| 0 <= j < q.len() implies in_class(#[trigger] q[j], ByteClass::Space) by {
                crate::bytes::lemma_span_prefix(q, ByteClass::Space, j);
            }
            lemma_span_after(q, r1, ByteClass::Space);
            lemma_span_after(q, r2, ByteClass::Space);
            let m1 = span(r1, ByteClass::Space) as int;
            let m2 = span(r2, ByteClass::Space) as int;
            lemma_span_bound(r1, ByteClass::Space);
            lemma_span_bound(r2, ByteClass::Space);
            assert((q + r1).skip(q.len() + m1) =~= r1.skip(m1));
            assert((q + r2).skip(q.len() + m2) =~= r2.skip(m2));
            if r1.len() == 0 {
                assert(r1 =~= r2);
            }
        }
    }
}

/// A token's parse, with inputs alike after it, reads alike.
pub proof fn lemma_after_alike<V>(o: Outcome<V>, r1: Seq<u8>, r2: Seq<u8>)
    requires
        token_end(r1),
        alike(r1, r2),
    ensures
        read_alike(after(o, r1), after(o, r2)),
        moves_alike(after(o, r1), after(o, r2)),
{
    if let Outcome::Done(q, v) = o {
        lemma_alike_prefix(q, r1, r2);
    }
}

/// A parse of equal inputs reads alike.
pub proof fn lemma_same_alike<V>(o: Outcome<V>)
    ensures
        read_alike(o, o),
        moves_alike(o, o),
{
}

/// The bytes that a keyword of a material in some case begins with.
proof fn lemma_keyword_start(w: Seq<u8>, kw: Seq<u8>)
    requires
        is_material_keyword(kw),
        same_but_case(w, kw),
    ensures
        w.len() >= 5,
        lowercase(w[0]) == 103 || lowercase(w[0]) == 118 || lowercase(w[0]) == 102,
        w[0] == 71 || w[0] == 103 || w[0] == 86 || w[0] == 118 || w[0] == 70 || w[0] == 102,
        !is_space(w[0]),
        lowercase(w[0]) == 102 ==> w[1] == 82 || w[1] == 114,
        lowercase(w[0]) == 102 ==> kw == keywords::FRACTION@,
        lowercase(w[0]) == 103 ==> kw == keywords::GLITTER@,
        lowercase(w[0]) == 118 ==> (kw == keywords::VALUE@ || kw == keywords::VFRACTION@),
{
    assert(lowercase(w[0]) == lowercase(kw[0]));
    assert(lowercase(w[1]) == lowercase(kw[1]));
}

/// Where the first byte begins no number, nom's `float` stops at once.
proof fn lemma_float_error(s: Seq<u8>)
    requires
        s.len() > 0,
        s[0] != 43 && s[0] != 45 && s[0] != 46,
        !(48 <= s[0] <= 57),
        lowercase(s[0]) != 110 && lowercase(s[0]) != 105,
    ensures
        spec_float(s) == Outcome::<Seq<u8>>::Error(s, ErrorKind::Float),
{
    assert(s.skip(0) =~= s);
    assert(span(s, ByteClass::Digit) == 0);
    let nan = seq![110u8, 97u8, 110u8];
    let inf = seq![105u8, 110u8, 102u8];
    assert(lowercase(s[0]) != lowercase(nan[0]));
    assert(lowercase(s[0]) != lowercase(inf[0]));
}

/// The token that begins each of two inputs alike, and what follows it.
pub open spec fn tokens_alike(s1: Seq<u8>, s2: Seq<u8>) -> bool {
    &&& s1.len() > 0 && !is_space(s1[0])
    &&& s2.len() > 0 && !is_space(s2[0])
    &&& alike(after_token(s1), after_token(s2))
    &&& token_end(after_token(s1))
    &&& token_end(after_token(s2))
    &&& s1 == first_token(s1) + after_token(s1)
    &&& s2 == first_token(s2) + after_token(s2)
    &&& (first_token(s1) == first_token(s2) || exists|kw: Seq<u8>|
        is_material_keyword(kw) && same_but_case(first_token(s1), kw) && same_but_case(
            first_token(s2),
            kw,
        ))
}

/// Inputs alike: both empty, both beginning with a separator, or both with
/// a token.
pub proof fn lemma_alike_cases(s1: Seq<u8>, s2: Seq<u8>)
    requires
        alike(s1, s2),
    ensures
        s1.len() == 0 ==> s1 == s2,
        s1.len() > 0 && is_space(s1[0]) ==> s2.len() > 0 && is_space(s2[0]),
        s1.len() > 0 && !is_space(s1[0]) ==> tokens_alike(s1, s2),
{
    lemma_alike_split(s1, s2);
    if s1.len() == 0 {
        assert(s1 =~= s2);
    } else if !is_space(s1[0]) {
        lemma_token_split(s1);
        lemma_token_split(s2);
        lemma_canon_alike(first_token(s1), first_token(s2));
    }
}

/// nom's `float` reads inputs alike alike.
pub proof fn lemma_float_alike(r1: Seq<u8>, r2: Seq<u8>)
    requires
        alike(r1, r2),
    ensures
        read_alike(spec_float(r1), spec_float(r2)),
{
    lemma_alike_cases(r1, r2);
    if r1.len() > 0 && is_space(r1[0]) {
        lemma_float_error(r1);
        lemma_float_error(r2);
    } else if r1.len() > 0 {
        let w1 = first_token(r1);
        let w2 = first_token(r2);
        let q1 = after_token(r1);
        let q2 = after_token(r2);
        if w1 == w2 {
            lemma_float_then(w1, q1);
            lemma_float_then(w1, q2);
            lemma_after_alike(spec_float(w1), q1, q2);
        } else {
            let kw = choose|kw: Seq<u8>| is_material_keyword(kw) && same_but_case(w1, kw) && same_but_case(w2, kw);
            lemma_keyword_start(w1, kw);
            lemma_keyword_start(w2, kw);
            assert(r1[0] == w1[0] && r2[0] == w2[0]);
            lemma_float_error(r1);
            lemma_float_error(r2);
        }
    }
}

/// A decimal number read from a token.
pub proof fn lemma_decimal_then(w: Seq<u8>, r: Seq<u8>, max: u32)
    requires
        stops(r),
    ensures
        spec_decimal(w + r, max) == after(spec_decimal(w, max), r),
{
    lemma_take_while1_then(w, r, ByteClass::Digit, ErrorKind::Digit);
}

/// A decimal number reads inputs alike alike.
pub proof fn lemma_decimal_alike(r1: Seq<u8>, r2: Seq<u8>, max: u32)
    requires
        alike(r1, r2),
    ensures
        read_alike(spec_decimal(r1, max), spec_decimal(r2, max)),
{
    lemma_alike_cases(r1, r2);
    if r1.len() > 0 {
        let w1 = first_token(r1);
        let w2 = first_token(r2);
        let q1 = after_token(r1);
        let q2 = after_token(r2);
        if !is_space(r1[0]) && w1 == w2 {
            lemma_decimal_then(w1, q1, max);
            lemma_decimal_then(w1, q2, max);
            lemma_after_alike(spec_decimal(w1, max), q1, q2);
        } else {
            if !is_space(r1[0]) {
                let kw = choose|kw: Seq<u8>| is_material_keyword(kw) && same_but_case(w1, kw) && same_but_case(w2, kw);
                lemma_keyword_start(w1, kw);
                lemma_keyword_start(w2, kw);
                assert(r1[0] == w1[0] && r2[0] == w2[0]);
            }
            assert(span(r1, ByteClass::Digit) == 0);
            assert(span(r2, ByteClass::Digit) == 0);
        }
    }
}

/// Spaces read inputs alike alike.
pub proof fn lemma_sp_alike(r1: Seq<u8>, r2: Seq<u8>)
    requires
        alike(r1, r2),
    ensures
        moves_alike(spec_sp(r1), spec_sp(r2)),
        moves_alike(spec_space0(r1), spec_space0(r2)),
{
    lemma_alike_cases(r1, r2);
    lemma_alike_split(r1, r2);
    if r1.len() > 0 && !is_space(r1[0]) {
        assert(span(r1, ByteClass::Space) == 0);
        assert(span(r2, ByteClass::Space) == 0);
        assert(r1.skip(0) =~= r1);
        assert(r2.skip(0) =~= r2);
    }
}

/// A keyword read with its case, which no keyword of a material in any case
/// begins with, reads inputs alike alike.
pub proof fn lemma_tag_alike(r1: Seq<u8>, r2: Seq<u8>, kw: Seq<u8>)
    requires
        alike(r1, r2),
        kw.len() > 0,
        no_space(kw),
        crate::laws::is_one_line(kw),
        lowercase(kw[0]) != 103 && lowercase(kw[0]) != 118 && lowercase(kw[0]) != 102,
    ensures
        read_alike(spec_tag(r1, kw), spec_tag(r2, kw)),
        moves_alike(spec_tag(r1, kw), spec_tag(r2, kw)),
{
    lemma_alike_cases(r1, r2);
    if r1.len() > 0 {
        let w1 = first_token(r1);
        let w2 = first_token(r2);
        let q1 = after_token(r1);
        let q2 = after_token(r2);
        if !is_space(r1[0]) && w1 == w2 {
            lemma_tag_then(w1, q1, kw);
            lemma_tag_then(w1, q2, kw);
            lemma_after_alike(spec_tag(w1, kw), q1, q2);
        } else {
            if !is_space(r1[0]) {
                let k = choose|k: Seq<u8>| is_material_keyword(k) && same_but_case(w1, k) && same_but_case(w2, k);
                lemma_keyword_start(w1, k);
                lemma_keyword_start(w2, k);
                assert(r1[0] == w1[0] && r2[0] == w2[0]);
            }
            assert(!is_space(kw[0]));
            if kw.len() <= r1.len() {
                assert(r1.take(kw.len() as int)[0] != kw[0]);
            }
            if kw.len() <= r2.len() {
                assert(r2.take(kw.len() as int)[0] != kw[0]);
            }
        }
    }
}

/// Three numbers read inputs alike alike.
proof fn lemma_read_vec3_alike(r1: Seq<u8>, r2: Seq<u8>)
    requires
        alike(r1, r2),
    ensures
        read_alike(spec_read_vec3(r1), spec_read_vec3(r2)),
{
    lemma_float_alike(r1, r2);
    if let Outcome::Done(a1, _) = spec_float(r1) {
        let a2 = spec_float(r2)->Done_0;
        lemma_sp_alike(a1, a2);
        if let Outcome::Done(b1, _) = spec_sp(a1) {
            let b2 = spec_sp(a2)->Done_0;
            lemma_float_alike(b1, b2);
            if let Outcome::Done(c1, _) = spec_float(b1) {
                let c2 = spec_float(b2)->Done_0;
                lemma_sp_alike(c1, c2);
                if let Outcome::Done(d1, _) = spec_sp(c1) {
                    let d2 = spec_sp(c2)->Done_0;
                    lemma_float_alike(d1, d2);
                }
            }
        }
    }
}

/// Spaces and three numbers read inputs alike alike.
proof fn lemma_sp_vec3_alike(r1: Seq<u8>, r2: Seq<u8>)
    requires
        alike(r1, r2),
    ensures
        read_alike(spec_sp_vec3(r1), spec_sp_vec3(r2)),
{
    lemma_sp_alike(r1, r2);
    if let Outcome::Done(a1, _) = spec_sp(r1) {
        lemma_read_vec3_alike(a1, spec_sp(r2)->Done_0);
    }
}

/// "Whitespace is defined as one or more spaces (#32), tabs (#9), or
/// combination thereof": a line of type 2 reads alike from any two inputs
/// that differ only in the runs of spaces and tabs between their tokens (or
/// in the case of a material keyword): the same command with what follows
/// it alike, or the same error.
pub proof fn law_line_any_spacing(i1: Seq<u8>, i2: Seq<u8>)
    requires
        alike(i1, i2),
    ensures
        read_alike(spec_line_cmd(i1), spec_line_cmd(i2)),
{
    lemma_decimal_alike(i1, i2, u32::MAX);
    if let Outcome::Done(a1, _) = spec_color_id(i1) {
        let a2 = spec_color_id(i2)->Done_0;
        lemma_sp_vec3_alike(a1, a2);
        if let Outcome::Done(b1, _) = spec_sp_vec3(a1) {
            let b2 = spec_sp_vec3(a2)->Done_0;
            lemma_sp_vec3_alike(b1, b2);
            if let Outcome::Done(c1, _) = spec_sp_vec3(b1) {
                let c2 = spec_sp_vec3(b2)->Done_0;
                lemma_sp_alike(c1, c2);
            }
        }
    }
}

/// A keyword of a material in some case is not read as another of them.
proof fn lemma_other_keyword(w: Seq<u8>, k: Seq<u8>, kw: Seq<u8>)
    requires
        is_material_keyword(k),
        is_material_keyword(kw),
        k != kw,
        same_but_case(w, k),
    ensures
        !starts_with_no_case(w, kw),
{
    let j: int = if (k == keywords::VALUE@ && kw == keywords::VFRACTION@) || (k
        == keywords::VFRACTION@ && kw == keywords::VALUE@) {
        1
    } else {
        0
    };
    assert(lowercase(k[j]) != lowercase(kw[j]));
    assert(lowercase(w[j]) == lowercase(k[j]));
}

/// A keyword of a material, read in any case, reads inputs alike alike.
pub proof fn lemma_tag_no_case_alike(r1: Seq<u8>, r2: Seq<u8>, kw: Seq<u8>)
    requires
        alike(r1, r2),
        is_material_keyword(kw),
    ensures
        moves_alike(spec_tag_no_case(r1, kw), spec_tag_no_case(r2, kw)),
{
    lemma_keywords_have_no_space();
    lemma_alike_cases(r1, r2);
    if r1.len() > 0 {
        let w1 = first_token(r1);
        let w2 = first_token(r2);
        let q1 = after_token(r1);
        let q2 = after_token(r2);
        if is_space(r1[0]) {
            assert(lowercase(r1[0]) != lowercase(kw[0]));
            assert(lowercase(r2[0]) != lowercase(kw[0]));
        } else {
            lemma_tag_no_case_then(w1, q1, kw);
            lemma_tag_no_case_then(w2, q2, kw);
            if w1 == w2 {
                lemma_after_alike(spec_tag_no_case(w1, kw), q1, q2);
            } else {
                let k = choose|k: Seq<u8>| is_material_keyword(k) && same_but_case(w1, k) && same_but_case(w2, k);
                if k == kw {
                    assert(w1.skip(kw.len() as int) + q1 =~= q1);
                    assert(w2.skip(kw.len() as int) + q2 =~= q2);
                } else {
                    lemma_other_keyword(w1, k, kw);
                    lemma_other_keyword(w2, k, kw);
                }
            }
        }
    }
}

/// A keyword then spaces, in inputs alike.
proof fn lemma_word_sp_alike(r1: Seq<u8>, r2: Seq<u8>, kw: Seq<u8>, no_case: bool)
    requires
        alike(r1, r2),
        no_case ==> is_material_keyword(kw),
        !no_case ==> kw.len() > 0 && no_space(kw) && crate::laws::is_one_line(kw) && lowercase(kw[0]) != 103 && lowercase(kw[0])
            != 118 && lowercase(kw[0]) != 102,
    ensures
        moves_alike(spec_word_sp(r1, kw, no_case), spec_word_sp(r2, kw, no_case)),
        moves_alike(spec_sp_word_sp(r1, kw, no_case), spec_sp_word_sp(r2, kw, no_case)),
{
    if no_case {
        lemma_tag_no_case_alike(r1, r2, kw);
        if let Outcome::Done(a1, _) = spec_tag_no_case(r1, kw) {
            lemma_sp_alike(a1, spec_tag_no_case(r2, kw)->Done_0);
        }
    } else {
        lemma_tag_alike(r1, r2, kw);
        if let Outcome::Done(a1, _) = spec_tag(r1, kw) {
            lemma_sp_alike(a1, spec_tag(r2, kw)->Done_0);
        }
    }
    lemma_sp_alike(r1, r2);
    if let Outcome::Done(b1, _) = spec_sp(r1) {
        let b2 = spec_sp(r2)->Done_0;
        if no_case {
            lemma_tag_no_case_alike(b1, b2, kw);
            if let Outcome::Done(a1, _) = spec_tag_no_case(b1, kw) {
                lemma_sp_alike(a1, spec_tag_no_case(b2, kw)->Done_0);
            }
        } else {
            lemma_tag_alike(b1, b2, kw);
            if let Outcome::Done(a1, _) = spec_tag(b1, kw) {
                lemma_sp_alike(a1, spec_tag(b2, kw)->Done_0);
            }
        }
    }
}

/// One primary of a colour, in inputs alike.
proof fn lemma_hex_primary_alike(r1: Seq<u8>, r2: Seq<u8>)
    requires
        alike(r1, r2),
    ensures
        read_alike(spec_hex_primary(r1), spec_hex_primary(r2)),
{
    lemma_alike_cases(r1, r2);
    if r1.len() > 0 {
        let w1 = first_token(r1);
        let w2 = first_token(r2);
        let q1 = after_token(r1);
        let q2 = after_token(r2);
        if !is_space(r1[0]) && w1 == w2 {
            lemma_two_hex_digits_then(w1, q1);
            lemma_two_hex_digits_then(w1, q2);
            lemma_after_alike(spec_hex_primary(w1), q1, q2);
        } else if !is_space(r1[0]) {
            let k = choose|k: Seq<u8>| is_material_keyword(k) && same_but_case(w1, k) && same_but_case(w2, k);
            lemma_keyword_start(w1, k);
            lemma_keyword_start(w2, k);
            assert(r1[0] == w1[0] && r2[0] == w2[0] && r1[1] == w1[1] && r2[1] == w2[1]);
        }
    }
}

/// A colour "#RRGGBB", in inputs alike.
proof fn lemma_hex_color_alike(r1: Seq<u8>, r2: Seq<u8>)
    requires
        alike(r1, r2),
    ensures
        read_alike(spec_hex_color(r1), spec_hex_color(r2)),
{
    lemma_tag_alike(r1, r2, keywords::HASH@);
    if let Outcome::Done(a1, _) = spec_tag(r1, keywords::HASH@) {
        let a2 = spec_tag(r2, keywords::HASH@)->Done_0;
        lemma_hex_primary_alike(a1, a2);
        if let Outcome::Done(b1, _) = spec_hex_primary(a1) {
            let b2 = spec_hex_primary(a2)->Done_0;
            lemma_hex_primary_alike(b1, b2);
            if let Outcome::Done(c1, _) = spec_hex_primary(b1) {
                lemma_hex_primary_alike(c1, spec_hex_primary(b2)->Done_0);
            }
        }
    }
}

/// The optional ALPHA and LUMINANCE parts, in inputs alike.
proof fn lemma_alpha_luminance_alike(r1: Seq<u8>, r2: Seq<u8>)
    requires
        alike(r1, r2),
    ensures
        read_alike(spec_colour_alpha(r1), spec_colour_alpha(r2)),
        read_alike(spec_colour_luminance(r1), spec_colour_luminance(r2)),
{
    lemma_word_sp_alike(r1, r2, keywords::ALPHA@, false);
    if let Outcome::Done(a1, _) = spec_sp_word_sp(r1, keywords::ALPHA@, false) {
        let a2 = spec_sp_word_sp(r2, keywords::ALPHA@, false)->Done_0;
        lemma_decimal_alike(a1, a2, 255);
    }
    assert(read_alike(spec_tagged_u8(r1, keywords::ALPHA@), spec_tagged_u8(r2, keywords::ALPHA@)));
    lemma_word_sp_alike(r1, r2, keywords::LUMINANCE@, false);
    if let Outcome::Done(a1, _) = spec_sp_word_sp(r1, keywords::LUMINANCE@, false) {
        let a2 = spec_sp_word_sp(r2, keywords::LUMINANCE@, false)->Done_0;
        lemma_decimal_alike(a1, a2, 255);
    }
    assert(read_alike(spec_tagged_u8(r1, keywords::LUMINANCE@), spec_tagged_u8(r2, keywords::LUMINANCE@)));
}

/// The grain size of a material, in inputs alike.
proof fn lemma_grain_size_alike(r1: Seq<u8>, r2: Seq<u8>)
    requires
        alike(r1, r2),
    ensures
        read_alike(spec_material_grain_size(r1), spec_material_grain_size(r2)),
{
    lemma_word_sp_alike(r1, r2, keywords::SIZE@, false);
    if let Outcome::Done(a1, _) = spec_word_sp(r1, keywords::SIZE@, false) {
        lemma_float_alike(a1, spec_word_sp(r2, keywords::SIZE@, false)->Done_0);
    }
    assert(read_alike(spec_grain_size(r1), spec_grain_size(r2)));
    lemma_word_sp_alike(r1, r2, keywords::MINSIZE@, false);
    if let Outcome::Done(a1, _) = spec_word_sp(r1, keywords::MINSIZE@, false) {
        let a2 = spec_word_sp(r2, keywords::MINSIZE@, false)->Done_0;
        lemma_float_alike(a1, a2);
        if let Outcome::Done(b1, _) = spec_float(a1) {
            let b2 = spec_float(a2)->Done_0;
            lemma_word_sp_alike(b1, b2, keywords::MAXSIZE@, false);
            if let Outcome::Done(c1, _) = spec_sp_word_sp(b1, keywords::MAXSIZE@, false) {
                lemma_float_alike(c1, spec_sp_word_sp(b2, keywords::MAXSIZE@, false)->Done_0);
            }
        }
    }
    assert(read_alike(spec_grain_min_max_size(r1), spec_grain_min_max_size(r2)));
}

/// The head of a GLITTER material, in inputs alike.
proof fn lemma_glitter_head_alike(r1: Seq<u8>, r2: Seq<u8>)
    requires
        alike(r1, r2),
    ensures
        read_alike(spec_material_head(r1, keywords::GLITTER@), spec_material_head(r2, keywords::GLITTER@)),
{
    lemma_word_sp_alike(r1, r2, keywords::GLITTER@, true);
    if let Outcome::Done(a1, _) = spec_word_sp(r1, keywords::GLITTER@, true) {
        let a2 = spec_word_sp(r2, keywords::GLITTER@, true)->Done_0;
        lemma_word_sp_alike(a1, a2, keywords::VALUE@, true);
        if let Outcome::Done(b1, _) = spec_word_sp(a1, keywords::VALUE@, true) {
            let b2 = spec_word_sp(a2, keywords::VALUE@, true)->Done_0;
            lemma_hex_color_alike(b1, b2);
            if let Outcome::Done(c1, _) = spec_hex_color(b1) {
                let c2 = spec_hex_color(b2)->Done_0;
                lemma_alpha_luminance_alike(c1, c2);
                if let Outcome::Done(d1, _) = spec_colour_alpha(c1) {
                    lemma_alpha_luminance_alike(d1, spec_colour_alpha(c2)->Done_0);
                }
            }
        }
    }
}

/// GLITTER materials: "these four keywords are matched without regard to
/// case", and any runs of spaces and tabs separate the tokens. A GLITTER
/// material reads alike from any two inputs that differ only in the case of
/// GLITTER, VALUE, FRACTION and VFRACTION and in the runs of spaces and tabs
/// between their tokens: the same material with what follows it alike, or
/// the same error.
pub proof fn law_glitter_keywords_without_case(i1: Seq<u8>, i2: Seq<u8>)
    requires
        alike(i1, i2),
    ensures
        read_alike(spec_glitter_material(i1), spec_glitter_material(i2)),
{
    lemma_glitter_head_alike(i1, i2);
    if let Outcome::Done(a1, _) = spec_material_head(i1, keywords::GLITTER@) {
        let a2 = spec_material_head(i2, keywords::GLITTER@)->Done_0;
        lemma_word_sp_alike(a1, a2, keywords::FRACTION@, true);
        if let Outcome::Done(b1, _) = spec_sp_word_sp(a1, keywords::FRACTION@, true) {
            let b2 = spec_sp_word_sp(a2, keywords::FRACTION@, true)->Done_0;
            lemma_float_alike(b1, b2);
            if let Outcome::Done(c1, _) = spec_float(b1) {
                let c2 = spec_float(b2)->Done_0;
                lemma_word_sp_alike(c1, c2, keywords::VFRACTION@, true);
                if let Outcome::Done(d1, _) = spec_sp_word_sp(c1, keywords::VFRACTION@, true) {
                    let d2 = spec_sp_word_sp(c2, keywords::VFRACTION@, true)->Done_0;
                    lemma_float_alike(d1, d2);
                    if let Outcome::Done(e1, _) = spec_float(d1) {
                        let e2 = spec_float(d2)->Done_0;
                        lemma_sp_alike(e1, e2);
                        if let Outcome::Done(f1, _) = spec_sp(e1) {
                            lemma_grain_size_alike(f1, spec_sp(e2)->Done_0);
                        }
                    }
                }
            }
        }
    }
}

} // verus!
