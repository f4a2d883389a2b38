//! What holds of the tokens of a line: how they are separated, and which
//! keywords are read without regard to case.

use vstd::prelude::*;
use crate::bytes::{
    in_class, is_digit, is_space, lemma_span_bound, lemma_span_concat, lowercase, span, spec_sp,
    spec_tag, spec_tag_no_case, ByteClass,
};
use crate::colour::{
    spec_colour_alpha, spec_colour_luminance, spec_glitter_material, spec_grain_size,
    spec_material_grain_size, spec_material_head, spec_sp_word_sp, spec_word_sp,
};
use crate::geometry::{spec_line_cmd, spec_sp_vec3};
use crate::keywords;
use crate::laws::lemma_span_after;
use crate::number::{
    all_digits, decimal_value, mantissa_len, sign_len, spec_color_id, spec_float,
    spec_float_scan, spec_hex_color, spec_hex_primary, FloatScanModel,
};
use crate::outcome::Outcome;
use crate::types::{
    Color, ColorFinishModel, CommandModel, GlitterModel, GrainSizeModel, MaterialFinishModel,
    Vec3Model,
};

verus! {

/// "Whitespace is defined as one or more spaces (#32), tabs (#9), or
/// combination thereof": a separator.
pub open spec fn is_space_run(a: Seq<u8>) -> bool {
    a.len() > 0 && forall|j: int| 0 <= j < a.len() ==> is_space(#[trigger] a[j])
}

/// `x` is read whole as a number.
pub open spec fn is_number_text(x: Seq<u8>) -> bool {
    spec_float(x) == Outcome::Done(Seq::<u8>::empty(), x)
}

/// Any run of spaces and tabs before a token is read as one separator.
pub proof fn law_space_run_separates(a: Seq<u8>, s: Seq<u8>)
    requires
        is_space_run(a),
        s.len() == 0 || !is_space(s[0]),
    ensures
        spec_sp(a + s) == Outcome::Done(s, a),
{
    assert forall|j: int| 0 <= j < a.len() implies in_class(#[trigger] a[j], ByteClass::Space) by {
        assert(is_space(a[j]));
    }
    lemma_span_after(a, s, ByteClass::Space);
    assert((a + s).skip(a.len() as int) =~= s);
    assert((a + s).take(a.len() as int) =~= a);
}

/// A number is never empty, nor begins with a space.
proof fn lemma_number_text_starts_token(x: Seq<u8>)
    requires
        is_number_text(x),
    ensures
        x.len() > 0 && !is_space(x[0]),
{
    if x.len() == 0 || is_space(x[0]) {
        assert(sign_len(x) == 0);
        assert(x.skip(0) =~= x);
        assert(span(x, ByteClass::Digit) == 0);
        let nan = seq![110u8, 97u8, 110u8];
        let inf = seq![105u8, 110u8, 102u8];
        if x.len() > 0 {
            assert(crate::bytes::lowercase(x[0]) != crate::bytes::lowercase(nan[0]));
            assert(crate::bytes::lowercase(x[0]) != crate::bytes::lowercase(inf[0]));
        }
        assert(spec_float_scan(x) == FloatScanModel::Error(x));
    }
}

/// A number followed by a space reads as the number alone.
#[verifier::rlimit(60)]
#[verifier::spinoff_prover]
pub proof fn lemma_number_then_space(x: Seq<u8>, r: Seq<u8>)
    requires
        is_number_text(x),
        r.len() == 0 || is_space(r[0]),
    ensures
        spec_float(x + r) == Outcome::Done(r, x),
        x.len() > 0 && !is_space(x[0]),
{
    lemma_number_text_starts_token(x);
    let s = x + r;
    if r.len() == 0 {
        assert(s =~= x);
        assert(r =~= Seq::<u8>::empty());
        return;
    }
    assert(!in_class(r[0], ByteClass::Digit));
    let sl = sign_len(x);
    assert(sign_len(s) == sl);
    let tx = x.skip(sl);
    let ts = s.skip(sl);
    assert(ts =~= tx + r);
    lemma_span_bound(tx, ByteClass::Digit);
    lemma_span_concat(tx, r, ByteClass::Digit);
    let d = span(tx, ByteClass::Digit) as int;
    if d > 0 && d < tx.len() && tx[d] == 46 {
        assert(ts.skip(d + 1) =~= tx.skip(d + 1) + r);
        lemma_span_concat(tx.skip(d + 1), r, ByteClass::Digit);
        lemma_span_bound(tx.skip(d + 1), ByteClass::Digit);
    }
    if d == 0 && tx.len() > 0 && tx[0] == 46 {
        assert(ts.skip(1) =~= tx.skip(1) + r);
        lemma_span_concat(tx.skip(1), r, ByteClass::Digit);
        lemma_span_bound(tx.skip(1), ByteClass::Digit);
    }
    if d == 0 && tx.len() == 0 {
        assert(ts =~= r);
    }
    let m = mantissa_len(tx);
    assert(mantissa_len(ts) == m);
    if m >= 0 {
        assert(m <= tx.len());
        let ux = tx.skip(m);
        let us = ts.skip(m);
        assert(us =~= ux + r);
        if ux.len() == 0 {
            assert(us =~= r);
            assert(s.take(s.len() - r.len()) =~= x);
        } else {
            assert(ux[0] == 101 || ux[0] == 69);
            let w = ux.skip(1);
            if w.len() == 0 {
                assert(ux.skip(1 + sign_len(w)).len() == 0);
                assert(span(ux.skip(1 + sign_len(w)), ByteClass::Digit) == 0);
            }
            assert(w.len() > 0);
            assert(us.skip(1) =~= w + r);
            assert(sign_len(us.skip(1)) == sign_len(w));
            let vx = ux.skip(1 + sign_len(w));
            let vs = us.skip(1 + sign_len(w));
            assert(vs =~= vx + r);
            lemma_span_bound(vx, ByteClass::Digit);
            lemma_span_concat(vx, r, ByteClass::Digit);
            let e = span(vx, ByteClass::Digit) as int;
            assert(vs.skip(e) =~= vx.skip(e) + r);
            assert(vx.skip(e).len() == 0);
            assert(vs.skip(e) =~= r);
            assert(s.take(s.len() - r.len()) =~= x);
        }
    } else {
        assert(x.len() >= 3);
        assert(x.skip(3).len() == 0);
        assert(s[0] == x[0] && s[1] == x[1] && s[2] == x[2]);
        let nan = seq![110u8, 97u8, 110u8];
        let inf = seq![105u8, 110u8, 102u8];
        assert(crate::bytes::starts_with_no_case(s, nan) == crate::bytes::starts_with_no_case(x, nan));
        assert(crate::bytes::starts_with_no_case(s, inf) == crate::bytes::starts_with_no_case(x, inf));
        assert(s.skip(3) =~= r);
        assert(s.take(s.len() - r.len()) =~= x);
    }
}

/// The tokens `x`, each after the separator of the same index in `a`.
pub open spec fn spaced(a: Seq<Seq<u8>>, x: Seq<Seq<u8>>) -> Seq<u8>
    decreases x.len(),
{
    if x.len() == 0 || a.len() == 0 {
        Seq::empty()
    } else {
        a[0] + (x[0] + spaced(a.drop_first(), x.drop_first()))
    }
}

/// Separators and numbers: the first `n` of each.
pub open spec fn spaced_numbers(a: Seq<Seq<u8>>, x: Seq<Seq<u8>>, n: int) -> bool {
    &&& a.len() == n && x.len() == n
    &&& forall|k: int| 0 <= k < n ==> is_space_run(#[trigger] a[k])
    &&& forall|k: int| 0 <= k < n ==> is_number_text(#[trigger] x[k])
}

/// What follows spaced tokens is empty or begins with a space.
proof fn lemma_spaced_starts_with_space(a: Seq<Seq<u8>>, x: Seq<Seq<u8>>)
    requires
        a.len() > 0 ==> is_space_run(a[0]),
    ensures
        spaced(a, x).len() == 0 || is_space(spaced(a, x)[0]),
{
    if x.len() > 0 && a.len() > 0 {
        assert(spaced(a, x)[0] == a[0][0]);
    }
}

/// A separator and a number, then what follows.
proof fn lemma_sp_number(a: Seq<Seq<u8>>, x: Seq<Seq<u8>>)
    requires
        a.len() > 0 && x.len() > 0,
        is_space_run(a[0]),
        is_number_text(x[0]),
        a.len() > 1 ==> is_space_run(a[1]),
    ensures
        spec_sp(spaced(a, x)) == Outcome::Done(x[0] + spaced(a.drop_first(), x.drop_first()), a[0]),
        spec_float(x[0] + spaced(a.drop_first(), x.drop_first()))
            == Outcome::Done(spaced(a.drop_first(), x.drop_first()), x[0]),
{
    let r = spaced(a.drop_first(), x.drop_first());
    lemma_spaced_starts_with_space(a.drop_first(), x.drop_first());
    lemma_number_then_space(x[0], r);
    assert((x[0] + r)[0] == x[0][0]);
    law_space_run_separates(a[0], x[0] + r);
}

/// Three spaced numbers read as a vector, whatever separates them.
proof fn lemma_sp_vec3(a: Seq<Seq<u8>>, x: Seq<Seq<u8>>, n: int)
    requires
        3 <= n,
        spaced_numbers(a, x, n),
    ensures
        spec_sp_vec3(spaced(a, x)) == Outcome::Done(
            spaced(a.skip(3), x.skip(3)),
            Vec3Model { x: x[0], y: x[1], z: x[2] },
        ),
{
    let a1 = a.drop_first();
    let x1 = x.drop_first();
    let a2 = a1.drop_first();
    let x2 = x1.drop_first();
    let a3 = a2.drop_first();
    let x3 = x2.drop_first();
    assert(a3 =~= a.skip(3) && x3 =~= x.skip(3));
    lemma_sp_number(a, x);
    lemma_sp_number(a1, x1);
    lemma_sp_number(a2, x2);
}

/// "Whitespace is defined as one or more spaces (#32), tabs (#9), or
/// combination thereof": a line of type 2 reads the same whatever runs of
/// spaces and tabs separate its tokens. After its colour `c` come the six
/// numbers `x`, each after its separator in `a`; the command is the colour
/// and the two vertices of those numbers.
pub proof fn law_line_of_numbers(c: Seq<u8>, a: Seq<Seq<u8>>, x: Seq<Seq<u8>>)
    requires
        c.len() > 0,
        all_digits(c),
        decimal_value(c) <= u32::MAX,
        spaced_numbers(a, x, 6),
    ensures
        spec_line_cmd(c + spaced(a, x)) == Outcome::Done(
            Seq::<u8>::empty(),
            CommandModel::Line {
                color: decimal_value(c) as u32,
                vertices: seq![
                    Vec3Model { x: x[0], y: x[1], z: x[2] },
                    Vec3Model { x: x[3], y: x[4], z: x[5] },
                ],
            },
        ),
{
    let r = spaced(a, x);
    lemma_spaced_starts_with_space(a, x);
    lemma_color_id_then(c, r);
    lemma_sp_vec3(a, x, 6);
    let b = a.skip(3);
    let y = x.skip(3);
    assert(spaced_numbers(b, y, 3));
    lemma_sp_vec3(b, y, 3);
    assert(b.skip(3).len() == 0);
    assert(spaced(b.skip(3), y.skip(3)) =~= Seq::<u8>::empty());
    let e = Seq::<u8>::empty();
    assert(span(e, ByteClass::Space) == 0);
    assert(e.skip(0) =~= e && e.take(0) =~= e);
}

/// A colour code followed by what is not a digit reads as the code alone.
pub proof fn lemma_color_id_then(c: Seq<u8>, r: Seq<u8>)
    requires
        c.len() > 0,
        all_digits(c),
        decimal_value(c) <= u32::MAX,
        r.len() == 0 || !is_digit(r[0]),
    ensures
        spec_color_id(c + r) == Outcome::Done(r, decimal_value(c) as u32),
{
    assert forall|j: int| 0 <= j < c.len() implies in_class(#[trigger] c[j], ByteClass::Digit) by {
        assert(is_digit(c[j]));
    }
    lemma_span_after(c, r, ByteClass::Digit);
    assert((c + r).skip(c.len() as int) =~= r);
    assert((c + r).take(c.len() as int) =~= c);
}

/// `w` is `kw` with its ASCII letters in any case.
pub open spec fn same_but_case(w: Seq<u8>, kw: Seq<u8>) -> bool {
    &&& w.len() == kw.len()
    &&& forall|j: int| 0 <= j < w.len() ==> lowercase(#[trigger] w[j]) == lowercase(kw[j])
}

/// A keyword that is matched without case reads the same in any case: what
/// follows it is read alike.
pub proof fn law_keyword_without_case(w: Seq<u8>, kw: Seq<u8>, s: Seq<u8>)
    requires
        same_but_case(w, kw),
    ensures
        spec_tag_no_case(w + s, kw) == Outcome::Done(s, w),
        spec_word_sp(w + s, kw, true) == spec_sp(s),
{
    assert forall|j: int| 0 <= j < kw.len() implies lowercase(#[trigger] (w + s)[j]) == lowercase(kw[j]) by {
        assert((w + s)[j] == w[j]);
    }
    assert((w + s).skip(kw.len() as int) =~= s);
    assert((w + s).take(kw.len() as int) =~= w);
}

/// A tag read from `p` is read alike from `p` followed by anything.
proof fn lemma_tag_then(p: Seq<u8>, t: Seq<u8>, r: Seq<u8>)
    requires
        spec_tag(p, t) is Done,
    ensures
        spec_tag(p + r, t) == Outcome::Done(p.skip(t.len() as int) + r, t),
{
    assert((p + r).take(t.len() as int) =~= p.take(t.len() as int));
    assert((p + r).skip(t.len() as int) =~= p.skip(t.len() as int) + r);
}

/// A primary read from `p` is read alike from `p` followed by anything.
proof fn lemma_primary_then(p: Seq<u8>, r: Seq<u8>)
    requires
        spec_hex_primary(p) is Done,
    ensures
        spec_hex_primary(p + r) == match spec_hex_primary(p) {
            Outcome::Done(q, v) => Outcome::Done(q + r, v),
            o => o,
        },
{
    assert((p + r).take(2) =~= p.take(2));
    assert((p + r).skip(2) =~= p.skip(2) + r);
}

/// A colour read whole from `h` is read alike where anything follows it.
pub proof fn lemma_colour_then(h: Seq<u8>, c: Color, r: Seq<u8>)
    requires
        spec_hex_color(h) == Outcome::Done(Seq::<u8>::empty(), c),
    ensures
        spec_hex_color(h + r) == Outcome::Done(r, c),
{
    let h1 = h.skip(1);
    lemma_tag_then(h, keywords::HASH@, r);
    lemma_primary_then(h1, r);
    let h2 = h1.skip(2);
    lemma_primary_then(h2, r);
    let h3 = h2.skip(2);
    lemma_primary_then(h3, r);
    assert(h3.skip(2).len() == 0);
    assert(h3.skip(2) + r =~= r);
}

/// A keyword in some case, between separators.
proof fn lemma_keyword_then(w: Seq<u8>, kw: Seq<u8>, a: Seq<u8>, rest: Seq<u8>)
    requires
        same_but_case(w, kw),
        is_space_run(a),
        rest.len() > 0 && !is_space(rest[0]),
    ensures
        spec_word_sp(w + (a + rest), kw, true) == Outcome::Done(rest, a),
{
    law_keyword_without_case(w, kw, a + rest);
    law_space_run_separates(a, rest);
}

/// Spaces, then a keyword in some case, then spaces.
proof fn lemma_sp_keyword_then(b: Seq<u8>, w: Seq<u8>, kw: Seq<u8>, a: Seq<u8>, rest: Seq<u8>)
    requires
        is_space_run(b),
        same_but_case(w, kw),
        kw.len() > 0 && !is_space(lowercase(kw[0])),
        is_space_run(a),
        rest.len() > 0 && !is_space(rest[0]),
    ensures
        spec_sp_word_sp(b + (w + (a + rest)), kw, true) == Outcome::Done(rest, a),
{
    assert(lowercase(w[0]) == lowercase(kw[0]));
    assert((w + (a + rest))[0] == w[0]);
    law_space_run_separates(b, w + (a + rest));
    lemma_keyword_then(w, kw, a, rest);
}

/// Where a !COLOUR material is GLITTER, its keywords GLITTER, VALUE, FRACTION
/// and VFRACTION are read in any case, and any runs of spaces and tabs
/// separate its tokens: the material read is that of its colour `c` (written
/// `h`), fractions `x` and `y` and size `z`, whatever the case and the
/// spacing.
pub proof fn law_glitter_of_tokens(
    k: Seq<Seq<u8>>,
    a: Seq<Seq<u8>>,
    h: Seq<u8>,
    c: Color,
    x: Seq<u8>,
    y: Seq<u8>,
    z: Seq<u8>,
)
    requires
        k.len() == 4,
        same_but_case(k[0], keywords::GLITTER@),
        same_but_case(k[1], keywords::VALUE@),
        same_but_case(k[2], keywords::FRACTION@),
        same_but_case(k[3], keywords::VFRACTION@),
        a.len() == 8,
        forall|j: int| 0 <= j < 8 ==> is_space_run(#[trigger] a[j]),
        spec_hex_color(h) == Outcome::Done(Seq::<u8>::empty(), c),
        is_number_text(x),
        is_number_text(y),
        is_number_text(z),
    ensures
        spec_glitter_material(
            k[0] + spaced(a, seq![k[1], h, k[2], x, k[3], y, keywords::SIZE@, z]),
        ) == Outcome::Done(
            Seq::<u8>::empty(),
            ColorFinishModel::Material(
                MaterialFinishModel::Glitter(
                    GlitterModel {
                        value: c,
                        alpha: None,
                        luminance: None,
                        surface_fraction: x,
                        volume_fraction: y,
                        size: GrainSizeModel::Size(z),
                    },
                ),
            ),
        ),
{
    let t = seq![k[1], h, k[2], x, k[3], y, keywords::SIZE@, z];
    let r0 = spaced(a, t);
    let r1 = spaced(a.skip(1), t.skip(1));
    let r2 = spaced(a.skip(2), t.skip(2));
    let r3 = spaced(a.skip(3), t.skip(3));
    let r4 = spaced(a.skip(4), t.skip(4));
    let r5 = spaced(a.skip(5), t.skip(5));
    let r6 = spaced(a.skip(6), t.skip(6));
    let r7 = spaced(a.skip(7), t.skip(7));
    let r8 = spaced(a.skip(8), t.skip(8));
    lemma_spaced_step(a, t, 0);
    lemma_spaced_step(a, t, 1);
    lemma_spaced_step(a, t, 2);
    lemma_spaced_step(a, t, 3);
    lemma_spaced_step(a, t, 4);
    lemma_spaced_step(a, t, 5);
    lemma_spaced_step(a, t, 6);
    lemma_spaced_step(a, t, 7);
    assert(r8 =~= Seq::<u8>::empty());
    assert(t[0] == k[1] && t[1] == h && t[2] == k[2] && t[3] == x);
    assert(t[4] == k[3] && t[5] == y && t[6] == keywords::SIZE@ && t[7] == z);
    assert(is_space_run(a[0]) && is_space_run(a[1]) && is_space_run(a[2]) && is_space_run(a[3]));
    assert(is_space_run(a[4]) && is_space_run(a[5]) && is_space_run(a[6]) && is_space_run(a[7]));
    // GLITTER VALUE #RRGGBB
    assert(lowercase(k[1][0]) == lowercase(keywords::VALUE@[0]));
    lemma_keyword_then(k[0], keywords::GLITTER@, a[0], k[1] + r1);
    assert(lowercase(h[0]) == lowercase(35u8)) by {
        assert(h.take(1) == keywords::HASH@);
        assert(h.take(1)[0] == h[0]);
    }
    assert((h + r2)[0] == h[0]);
    lemma_keyword_then(k[1], keywords::VALUE@, a[1], h + r2);
    lemma_colour_then(h, c, r2);
    // no ALPHA, no LUMINANCE
    assert(lowercase(k[2][0]) == lowercase(keywords::FRACTION@[0]));
    assert((k[2] + r3)[0] == k[2][0]);
    law_space_run_separates(a[2], k[2] + r3);
    assert((k[2] + r3).take(5) != keywords::ALPHA@) by {
        if (k[2] + r3).len() >= 5 {
            assert((k[2] + r3).take(5)[0] != keywords::ALPHA@[0]);
        }
    }
    assert((k[2] + r3).take(9) != keywords::LUMINANCE@) by {
        if (k[2] + r3).len() >= 9 {
            assert((k[2] + r3).take(9)[0] != keywords::LUMINANCE@[0]);
        }
    }
    assert(spec_colour_alpha(r2) == Outcome::Done(r2, None::<u8>));
    assert(spec_colour_luminance(r2) == Outcome::Done(r2, None::<u8>));
    // FRACTION f VFRACTION vf
    lemma_number_then_space(x, r4);
    lemma_number_then_space(y, r6);
    assert((x + r4)[0] == x[0]);
    lemma_sp_keyword_then(a[2], k[2], keywords::FRACTION@, a[3], x + r4);
    assert(lowercase(k[3][0]) == lowercase(keywords::VFRACTION@[0]));
    assert((y + r6)[0] == y[0]);
    lemma_sp_keyword_then(a[4], k[3], keywords::VFRACTION@, a[5], y + r6);
    // SIZE s
    assert((keywords::SIZE@ + r7)[0] == keywords::SIZE@[0]);
    law_space_run_separates(a[6], keywords::SIZE@ + r7);
    lemma_number_then_space(z, r8);
    assert(z + r8 =~= z);
    assert((z + r8)[0] == z[0]);
    law_space_run_separates(a[7], z + r8);
    assert(keywords::SIZE@ + r7 =~= keywords::SIZE@ + (a[7] + (z + r8)));
    lemma_tag_size(r7);
    assert(spec_grain_size(keywords::SIZE@ + r7) == Outcome::Done(r8, GrainSizeModel::Size(z)));
    assert(spec_material_grain_size(keywords::SIZE@ + r7) == Outcome::Done(r8, GrainSizeModel::Size(z)));
    assert(spec_material_head(k[0] + r0, keywords::GLITTER@) == Outcome::Done(r2, (c, None::<u8>, None::<u8>)));
}

/// SIZE, read exactly.
proof fn lemma_tag_size(r: Seq<u8>)
    ensures
        spec_tag(keywords::SIZE@ + r, keywords::SIZE@) == Outcome::Done(r, keywords::SIZE@),
{
    assert((keywords::SIZE@ + r).take(4) =~= keywords::SIZE@);
    assert((keywords::SIZE@ + r).skip(4) =~= r);
}

/// One separator and token of spaced tokens, from the `i`-th on.
proof fn lemma_spaced_step(a: Seq<Seq<u8>>, t: Seq<Seq<u8>>, i: int)
    requires
        0 <= i < a.len(),
        i < t.len(),
    ensures
        spaced(a.skip(i), t.skip(i)) == a[i] + (t[i] + spaced(a.skip(i + 1), t.skip(i + 1))),
{
    assert(a.skip(i).drop_first() =~= a.skip(i + 1));
    assert(t.skip(i).drop_first() =~= t.skip(i + 1));
}

} // verus!
