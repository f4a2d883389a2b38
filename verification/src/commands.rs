//! What each command reads: a line of each type made of its tokens gives
//! the command of those tokens, and a meta-command is read as itself.

use vstd::prelude::*;
use crate::bytes::{is_space, spec_sp, spec_space0, span, ByteClass};
use crate::geometry::{
    spec_file_ref_cmd, spec_filename, spec_four_vertices, spec_opt_line_cmd, spec_quad_cmd,
    spec_quad_uvs, spec_sp_vec3, spec_tri_cmd, spec_tri_uvs,
};
use crate::laws::is_one_line;
use crate::number::{all_digits, decimal_value, spec_color_id, spec_float, spec_hex_color, spec_read_vec2};
use crate::outcome::{optional, Outcome};
use crate::tokens::{
    is_number_text, is_space_run, law_space_run_separates, lemma_color_id_then,
    lemma_number_then_space, spaced_numbers,
};
use crate::types::{Color, ColourModel, CommandModel, Vec3Model};
use crate::bytes::{in_class, is_cr_or_lf, spec_single_comma, spec_tag};
use crate::colour::{spec_colour_alpha, spec_colour_luminance, spec_color_finish, spec_colour_tail, spec_meta_colour, spec_sp_word_sp, spec_word_sp};
use crate::keywords;
use crate::meta::{
    spec_category, spec_keyword, spec_keywords, spec_keywords_list, spec_meta_base_64_data,
    spec_meta_data, spec_meta_file, spec_meta_nofile, spec_more_keywords,
};
use crate::parse::{spec_meta_cmd, spec_read_line};
use crate::text::trimmed;
use vstd::utf8::{decode_utf8, valid_utf8};

verus! {

/// The tokens `x`, each after the separator of the same index in `a`, then `t`.
pub open spec fn spaced_then(a: Seq<Seq<u8>>, x: Seq<Seq<u8>>, t: Seq<u8>) -> Seq<u8>
    decreases x.len(),
{
    if x.len() == 0 || a.len() == 0 {
        t
    } else {
        a[0] + (x[0] + spaced_then(a.drop_first(), x.drop_first(), t))
    }
}

/// Nothing, or a space or tab first.
pub open spec fn after_token(t: Seq<u8>) -> bool {
    t.len() == 0 || is_space(t[0])
}

proof fn lemma_spaced_then_start(a: Seq<Seq<u8>>, x: Seq<Seq<u8>>, t: Seq<u8>)
    requires
        a.len() > 0 && x.len() > 0 ==> is_space_run(a[0]),
        after_token(t),
    ensures
        after_token(spaced_then(a, x, t)),
{
    if x.len() > 0 && a.len() > 0 {
        assert(spaced_then(a, x, t)[0] == a[0][0]);
    }
}

/// A separator and a number, then what follows.
proof fn lemma_sp_number_then(a: Seq<Seq<u8>>, x: Seq<Seq<u8>>, t: Seq<u8>)
    requires
        a.len() > 0 && x.len() > 0,
        is_space_run(a[0]),
        is_number_text(x[0]),
        a.len() > 1 && x.len() > 1 ==> is_space_run(a[1]),
        after_token(t),
    ensures
        spec_sp(spaced_then(a, x, t)) == Outcome::Done(
            x[0] + spaced_then(a.drop_first(), x.drop_first(), t),
            a[0],
        ),
        spec_float(x[0] + spaced_then(a.drop_first(), x.drop_first(), t)) == Outcome::Done(
            spaced_then(a.drop_first(), x.drop_first(), t),
            x[0],
        ),
{
    let r = spaced_then(a.drop_first(), x.drop_first(), t);
    lemma_spaced_then_start(a.drop_first(), x.drop_first(), t);
    lemma_number_then_space(x[0], r);
    assert((x[0] + r)[0] == x[0][0]);
    law_space_run_separates(a[0], x[0] + r);
}

/// Three spaced numbers read as a vector, whatever separates them.
proof fn lemma_sp_vec3_then(a: Seq<Seq<u8>>, x: Seq<Seq<u8>>, n: int, t: Seq<u8>)
    requires
        3 <= n,
        spaced_numbers(a, x, n),
        after_token(t),
    ensures
        spec_sp_vec3(spaced_then(a, x, t)) == Outcome::Done(
            spaced_then(a.skip(3), x.skip(3), t),
            Vec3Model { x: x[0], y: x[1], z: x[2] },
        ),
        spaced_numbers(a.skip(3), x.skip(3), n - 3),
{
    let a1 = a.drop_first();
    let x1 = x.drop_first();
    let a2 = a1.drop_first();
    let x2 = x1.drop_first();
    let a3 = a2.drop_first();
    let x3 = x2.drop_first();
    assert(a3 =~= a.skip(3) && x3 =~= x.skip(3));
    lemma_sp_number_then(a, x, t);
    lemma_sp_number_then(a1, x1, t);
    lemma_sp_number_then(a2, x2, t);
}

/// The vertex of the numbers `x` from the `k`-th on.
pub open spec fn vertex(x: Seq<Seq<u8>>, k: int) -> Vec3Model {
    Vec3Model { x: x[k], y: x[k + 1], z: x[k + 2] }
}

/// A colour code: digits whose value is a `u32`.
pub open spec fn is_colour_code(c: Seq<u8>) -> bool {
    c.len() > 0 && all_digits(c) && decimal_value(c) <= u32::MAX
}

/// The colour, then numbers, then `t`: the colour is read, and the vertices.
proof fn lemma_colour_and_vertices(c: Seq<u8>, a: Seq<Seq<u8>>, x: Seq<Seq<u8>>, n: int, t: Seq<u8>)
    requires
        is_colour_code(c),
        n == 6 || n == 9 || n == 12,
        spaced_numbers(a, x, n),
        after_token(t),
    ensures
        spec_color_id(c + spaced_then(a, x, t)) == Outcome::Done(
            spaced_then(a, x, t),
            decimal_value(c) as u32,
        ),
        spec_sp_vec3(spaced_then(a, x, t)) == Outcome::Done(spaced_then(a.skip(3), x.skip(3), t), vertex(x, 0)),
        spec_sp_vec3(spaced_then(a.skip(3), x.skip(3), t)) == Outcome::Done(
            spaced_then(a.skip(6), x.skip(6), t),
            vertex(x, 3),
        ),
        n >= 9 ==> spec_sp_vec3(spaced_then(a.skip(6), x.skip(6), t)) == Outcome::Done(
            spaced_then(a.skip(9), x.skip(9), t),
            vertex(x, 6),
        ),
        n >= 12 ==> spec_sp_vec3(spaced_then(a.skip(9), x.skip(9), t)) == Outcome::Done(
            spaced_then(a.skip(12), x.skip(12), t),
            vertex(x, 9),
        ),
        spaced_then(a.skip(n), x.skip(n), t) == t,
{
    lemma_spaced_then_start(a, x, t);
    lemma_color_id_then(c, spaced_then(a, x, t));
    lemma_sp_vec3_then(a, x, n, t);
    let b3 = a.skip(3);
    let y3 = x.skip(3);
    lemma_sp_vec3_then(b3, y3, n - 3, t);
    assert(b3.skip(3) =~= a.skip(6) && y3.skip(3) =~= x.skip(6));
    if n >= 9 {
        let b6 = a.skip(6);
        let y6 = x.skip(6);
        lemma_sp_vec3_then(b6, y6, n - 6, t);
        assert(b6.skip(3) =~= a.skip(9) && y6.skip(3) =~= x.skip(9));
        if n >= 12 {
            let b9 = a.skip(9);
            let y9 = x.skip(9);
            lemma_sp_vec3_then(b9, y9, n - 9, t);
            assert(b9.skip(3) =~= a.skip(12) && y9.skip(3) =~= x.skip(12));
        }
    }
    assert(x.skip(n).len() == 0);
}

/// Nothing is read as texture coordinates from the end of a line.
proof fn lemma_no_uvs()
    ensures
        optional(Seq::<u8>::empty(), spec_tri_uvs(Seq::<u8>::empty()))
            == Outcome::<Option<Seq<crate::types::Vec2Model>>>::Done(Seq::<u8>::empty(), None),
        optional(Seq::<u8>::empty(), spec_quad_uvs(Seq::<u8>::empty()))
            == Outcome::<Option<Seq<crate::types::Vec2Model>>>::Done(Seq::<u8>::empty(), None),
        spec_space0(Seq::<u8>::empty()) == Outcome::Done(Seq::<u8>::empty(), Seq::<u8>::empty()),
{
    let e = Seq::<u8>::empty();
    assert(e.skip(0) =~= e && e.take(0) =~= e);
    assert(span(e, ByteClass::Space) == 0);
    assert(span(e, ByteClass::Digit) == 0);
    assert(crate::number::mantissa_len(e) == -1);
    assert(spec_float(e) is Error);
    assert(spec_read_vec2(e) is Error);
}

/// A line of type 1 reads as its colour, position, rows of the matrix and
/// file name: for any colour code `c` (any `u32`), the twelve numbers `x`
/// after any runs of spaces and tabs `a`, and after spaces `b` the file
/// name `f`, the command holds the colour `c` stands for, the vertices of
/// the numbers, and the file name without surrounding white space.
pub proof fn law_file_ref_of_numbers(
    c: Seq<u8>,
    a: Seq<Seq<u8>>,
    x: Seq<Seq<u8>>,
    b: Seq<u8>,
    f: Seq<u8>,
)
    requires
        is_colour_code(c),
        spaced_numbers(a, x, 12),
        is_space_run(b),
        is_one_line(f),
        valid_utf8(f),
        f.len() == 0 || !is_space(f[0]),
    ensures
        spec_file_ref_cmd(c + spaced_then(a, x, b + f)) == Outcome::Done(
            Seq::<u8>::empty(),
            CommandModel::SubFileRef {
                color: decimal_value(c) as u32,
                pos: vertex(x, 0),
                row0: vertex(x, 3),
                row1: vertex(x, 6),
                row2: vertex(x, 9),
                file: trimmed(decode_utf8(f)),
            },
        ),
{
    assert((b + f)[0] == b[0]);
    lemma_colour_and_vertices(c, a, x, 12, b + f);
    law_space_run_separates(b, f);
    crate::line_ends::lemma_skip_one_line(f, 0);
    assert forall|j: int| 0 <= j < f.len() implies crate::bytes::in_class(#[trigger] f[j], ByteClass::NotCrOrLf) by {}
    crate::laws::lemma_span_after(f, Seq::<u8>::empty(), ByteClass::NotCrOrLf);
    assert(f + Seq::<u8>::empty() =~= f);
    assert(span(Seq::<u8>::empty(), ByteClass::NotCrOrLf) == 0);
    assert(f.skip(f.len() as int) =~= Seq::<u8>::empty());
    assert(f.take(f.len() as int) =~= f);
    assert(spec_filename(f) == Outcome::Done(Seq::<u8>::empty(), trimmed(decode_utf8(f))));
}

/// A line of type 4 reads as its colour and four vertices: for any colour
/// code `c` (any `u32`) and the twelve numbers `x` after any runs of spaces
/// and tabs `a`, the command holds the colour `c` stands for and the
/// vertices of the numbers, without texture coordinates.
pub proof fn law_quad_of_numbers(c: Seq<u8>, a: Seq<Seq<u8>>, x: Seq<Seq<u8>>)
    requires
        is_colour_code(c),
        spaced_numbers(a, x, 12),
    ensures
        spec_quad_cmd(c + spaced_then(a, x, Seq::<u8>::empty())) == Outcome::Done(
            Seq::<u8>::empty(),
            CommandModel::Quad {
                color: decimal_value(c) as u32,
                vertices: seq![vertex(x, 0), vertex(x, 3), vertex(x, 6), vertex(x, 9)],
                uvs: None,
            },
        ),
{
    lemma_colour_and_vertices(c, a, x, 12, Seq::<u8>::empty());
    lemma_no_uvs();
    assert(spec_four_vertices(spaced_then(a, x, Seq::<u8>::empty())) == Outcome::Done(
        Seq::<u8>::empty(),
        seq![vertex(x, 0), vertex(x, 3), vertex(x, 6), vertex(x, 9)],
    ));
}

/// A line of type 5 reads as its colour, the two ends of its line and its
/// two control points, for any colour code `c` (any `u32`) and any spacing.
pub proof fn law_opt_line_of_numbers(c: Seq<u8>, a: Seq<Seq<u8>>, x: Seq<Seq<u8>>)
    requires
        is_colour_code(c),
        spaced_numbers(a, x, 12),
    ensures
        spec_opt_line_cmd(c + spaced_then(a, x, Seq::<u8>::empty())) == Outcome::Done(
            Seq::<u8>::empty(),
            CommandModel::OptLine {
                color: decimal_value(c) as u32,
                vertices: seq![vertex(x, 0), vertex(x, 3)],
                control_points: seq![vertex(x, 6), vertex(x, 9)],
            },
        ),
{
    lemma_colour_and_vertices(c, a, x, 12, Seq::<u8>::empty());
    lemma_no_uvs();
    let v = seq![vertex(x, 0), vertex(x, 3), vertex(x, 6), vertex(x, 9)];
    assert(spec_four_vertices(spaced_then(a, x, Seq::<u8>::empty())) == Outcome::Done(Seq::<u8>::empty(), v));
    assert(seq![v[0], v[1]] =~= seq![vertex(x, 0), vertex(x, 3)]);
    assert(seq![v[2], v[3]] =~= seq![vertex(x, 6), vertex(x, 9)]);
}

/// A line of type 3 reads as its colour and three vertices, for any colour
/// code `c` (any `u32`) and any spacing, without texture coordinates.
pub proof fn law_tri_of_numbers(c: Seq<u8>, a: Seq<Seq<u8>>, x: Seq<Seq<u8>>)
    requires
        is_colour_code(c),
        spaced_numbers(a, x, 9),
    ensures
        spec_tri_cmd(c + spaced_then(a, x, Seq::<u8>::empty())) == Outcome::Done(
            Seq::<u8>::empty(),
            CommandModel::Triangle {
                color: decimal_value(c) as u32,
                vertices: seq![vertex(x, 0), vertex(x, 3), vertex(x, 6)],
                uvs: None,
            },
        ),
{
    lemma_colour_and_vertices(c, a, x, 9, Seq::<u8>::empty());
    lemma_no_uvs();
}

/// Where `s` begins with the keyword `t1`, it does not begin with a keyword
/// `t2` that differs from it at `j`.
proof fn lemma_other_tag(s: Seq<u8>, t1: Seq<u8>, t2: Seq<u8>, j: int)
    requires
        spec_tag(s, t1) is Done,
        0 <= j < t1.len(),
        j < t2.len(),
        t1[j] != t2[j],
    ensures
        spec_tag(s, t2) is Error,
{
    assert(s.take(t1.len() as int)[j] == s[j]);
    if t2.len() <= s.len() && s.take(t2.len() as int) == t2 {
        assert(s.take(t2.len() as int)[j] == s[j]);
    }
}

/// A meta-command is read as itself: where a line of type 0 is read by the
/// parser of !CATEGORY, !KEYWORDS, !COLOUR, FILE, NOFILE, !DATA or !:, the
/// command read is what that parser reads (and not, say, a comment).
pub proof fn law_meta_command_is_itself(s: Seq<u8>)
    ensures
        spec_category(s) is Done ==> spec_meta_cmd(s) == spec_category(s),
        spec_keywords(s) is Done ==> spec_meta_cmd(s) == spec_keywords(s),
        spec_meta_colour(s) is Done ==> spec_meta_cmd(s) == spec_meta_colour(s),
        spec_meta_file(s) is Done ==> spec_meta_cmd(s) == spec_meta_file(s),
        spec_meta_nofile(s) is Done ==> spec_meta_cmd(s) == spec_meta_nofile(s),
        spec_meta_data(s) is Done ==> spec_meta_cmd(s) == spec_meta_data(s),
        spec_meta_base_64_data(s) is Done ==> spec_meta_cmd(s) == spec_meta_base_64_data(s),
{
    let cat = keywords::CATEGORY@;
    let kw = keywords::KEYWORDS@;
    let col = keywords::COLOUR@;
    let file = keywords::FILE@;
    let nofile = keywords::NOFILE@;
    let data = keywords::DATA@;
    let b64 = keywords::BASE64_DATA@;
    if spec_keywords(s) is Done {
        assert(spec_tag(s, kw) is Done);
        lemma_other_tag(s, kw, cat, 1);
    }
    if spec_meta_colour(s) is Done {
        assert(spec_word_sp(s, col, false) is Done);
        assert(spec_tag(s, col) is Done);
        lemma_other_tag(s, col, cat, 2);
        lemma_other_tag(s, col, kw, 1);
    }
    if spec_meta_file(s) is Done {
        assert(spec_tag(s, file) is Done);
        lemma_other_tag(s, file, cat, 0);
        lemma_other_tag(s, file, kw, 0);
        lemma_other_tag(s, file, col, 0);
    }
    if spec_meta_nofile(s) is Done {
        assert(spec_tag(s, nofile) is Done);
        lemma_other_tag(s, nofile, cat, 0);
        lemma_other_tag(s, nofile, kw, 0);
        lemma_other_tag(s, nofile, col, 0);
        lemma_other_tag(s, nofile, file, 0);
    }
    if spec_meta_data(s) is Done {
        assert(spec_tag(s, data) is Done);
        lemma_other_tag(s, data, cat, 1);
        lemma_other_tag(s, data, kw, 1);
        lemma_other_tag(s, data, col, 1);
        lemma_other_tag(s, data, file, 0);
        lemma_other_tag(s, data, nofile, 0);
    }
    if spec_meta_base_64_data(s) is Done {
        assert(spec_tag(s, b64) is Done);
        lemma_other_tag(s, b64, cat, 1);
        lemma_other_tag(s, b64, kw, 1);
        lemma_other_tag(s, b64, col, 1);
        lemma_other_tag(s, b64, file, 0);
        lemma_other_tag(s, b64, nofile, 0);
        lemma_other_tag(s, b64, data, 1);
    }
}

/// A line of type 0: its line type, spaces, then the meta-command `s`.
proof fn lemma_type0_line(a0: Seq<u8>, s: Seq<u8>)
    requires
        is_space_run(a0),
        s.len() > 0,
        !is_space(s[0]),
    ensures
        spec_read_line(seq![48u8] + (a0 + s)) == spec_meta_cmd(s),
{
    reveal(spec_read_line);
    let l = seq![48u8] + (a0 + s);
    assert(l[0] == 48u8);
    assert(span(l, ByteClass::SpaceOrEol) == 0);
    assert(l.skip(0) =~= l);
    assert(l.drop_first() =~= a0 + s);
    assert((a0 + s)[0] == a0[0]);
    assert(span(a0 + s, ByteClass::Digit) == 0);
    assert(span(l, ByteClass::Digit) == 1);
    assert(l.skip(1) =~= a0 + s);
    assert(l.take(1) =~= seq![48u8]);
    law_space_run_separates(a0, s);
}

/// A keyword read with its case, at the start of `k + r`.
proof fn lemma_tag_prefix(k: Seq<u8>, r: Seq<u8>)
    ensures
        spec_tag(k + r, k) == Outcome::Done(r, k),
{
    assert((k + r).take(k.len() as int) =~= k);
    assert((k + r).skip(k.len() as int) =~= r);
}

/// The rest of a line, read whole as text.
proof fn lemma_rest_of_line(t: Seq<u8>)
    requires
        is_one_line(t),
        valid_utf8(t),
    ensures
        crate::text::as_utf8(t, crate::bytes::spec_take_not_cr_or_lf(t)) == Outcome::Done(
            Seq::<u8>::empty(),
            decode_utf8(t),
        ),
{
    assert forall|j: int| 0 <= j < t.len() implies in_class(#[trigger] t[j], ByteClass::NotCrOrLf) by {}
    crate::laws::lemma_span_after(t, Seq::<u8>::empty(), ByteClass::NotCrOrLf);
    assert(t + Seq::<u8>::empty() =~= t);
    assert(span(Seq::<u8>::empty(), ByteClass::NotCrOrLf) == 0);
    assert(t.skip(t.len() as int) =~= Seq::<u8>::empty());
    assert(t.take(t.len() as int) =~= t);
}

/// A !CATEGORY line reads as its category: after "0", spaces, "!CATEGORY"
/// and spaces, the text `t` of the rest of the line.
pub proof fn law_category_line(a0: Seq<u8>, a: Seq<u8>, t: Seq<u8>)
    requires
        is_space_run(a0),
        is_space_run(a),
        is_one_line(t),
        valid_utf8(t),
        t.len() == 0 || !is_space(t[0]),
    ensures
        spec_read_line(seq![48u8] + (a0 + (keywords::CATEGORY@ + (a + t)))) == Outcome::Done(
            Seq::<u8>::empty(),
            CommandModel::Category(decode_utf8(t)),
        ),
{
    let s = keywords::CATEGORY@ + (a + t);
    assert(s[0] == 33u8);
    lemma_type0_line(a0, s);
    lemma_tag_prefix(keywords::CATEGORY@, a + t);
    law_space_run_separates(a, t);
    lemma_rest_of_line(t);
    law_meta_command_is_itself(s);
}

/// A keyword of a !KEYWORDS list: text without a comma, on one line.
pub open spec fn is_keyword_text(k: Seq<u8>) -> bool {
    &&& k.len() > 0
    &&& valid_utf8(k)
    &&& forall|j: int| 0 <= j < k.len() ==> #[trigger] k[j] != 44u8 && !is_cr_or_lf(k[j])
}

/// The keywords `ks`, separated by commas.
pub open spec fn comma_list(ks: Seq<Seq<u8>>) -> Seq<u8>
    decreases ks.len(),
{
    if ks.len() <= 1 {
        if ks.len() == 1 {
            ks[0]
        } else {
            Seq::empty()
        }
    } else {
        ks[0] + (seq![44u8] + comma_list(ks.drop_first()))
    }
}

pub open spec fn keyword_texts(ks: Seq<Seq<u8>>) -> bool {
    forall|i: int| 0 <= i < ks.len() ==> is_keyword_text(#[trigger] ks[i])
}

/// A keyword, followed by a comma or nothing.
proof fn lemma_keyword_then(k: Seq<u8>, r: Seq<u8>)
    requires
        is_keyword_text(k),
        r.len() == 0 || r[0] == 44u8,
    ensures
        spec_keyword(k + r) == Outcome::Done(r, decode_utf8(k)),
{
    assert forall|j: int| 0 <= j < k.len() implies in_class(#[trigger] k[j], ByteClass::NotCommaOrEol) by {
        assert(k[j] != 44u8 && !is_cr_or_lf(k[j]));
    }
    crate::laws::lemma_span_after(k, r, ByteClass::NotCommaOrEol);
    assert(span(r, ByteClass::NotCommaOrEol) == 0);
    assert((k + r).skip(k.len() as int) =~= r);
    assert((k + r).take(k.len() as int) =~= k);
}

/// The keywords after the first, each after its comma.
proof fn lemma_more_keywords_list(ks: Seq<Seq<u8>>, acc: Seq<Seq<char>>)
    requires
        ks.len() >= 1,
        keyword_texts(ks),
    ensures
        spec_more_keywords(seq![44u8] + comma_list(ks), acc) == Outcome::Done(
            Seq::<u8>::empty(),
            acc + ks.map_values(|k: Seq<u8>| decode_utf8(k)),
        ),
    decreases ks.len(),
{
    let l = comma_list(ks);
    let s = seq![44u8] + l;
    assert(s.skip(1) =~= l);
    assert(s.take(1) =~= seq![44u8]);
    assert(is_keyword_text(ks[0]));
    let d0 = decode_utf8(ks[0]);
    assert(spec_single_comma(s) == Outcome::Done(l, seq![44u8]));
    if ks.len() == 1 {
        let e = Seq::<u8>::empty();
        assert(l =~= ks[0] + e);
        lemma_keyword_then(ks[0], e);
        assert(spec_keyword(l) == Outcome::Done(e, d0));
        assert(spec_single_comma(e) is Error);
        assert(spec_more_keywords(e, acc.push(d0)) == Outcome::Done(e, acc.push(d0)));
        assert(acc.push(d0) =~= acc + ks.map_values(|k: Seq<u8>| decode_utf8(k)));
    } else {
        let rest = ks.drop_first();
        assert(keyword_texts(rest)) by {
            assert forall|i: int| 0 <= i < rest.len() implies is_keyword_text(#[trigger] rest[i]) by {
                assert(rest[i] == ks[i + 1]);
            }
        }
        let r = seq![44u8] + comma_list(rest);
        assert(l == ks[0] + r);
        lemma_keyword_then(ks[0], r);
        assert(spec_keyword(l) == Outcome::Done(r, d0));
        lemma_more_keywords_list(rest, acc.push(d0));
        assert(acc.push(d0) + rest.map_values(|k: Seq<u8>| decode_utf8(k))
            =~= acc + ks.map_values(|k: Seq<u8>| decode_utf8(k)));
    }
}

/// A list of keywords separated by commas, read whole.
proof fn lemma_keywords_list(ks: Seq<Seq<u8>>)
    requires
        ks.len() >= 1,
        keyword_texts(ks),
    ensures
        spec_keywords_list(comma_list(ks)) == Outcome::Done(
            Seq::<u8>::empty(),
            ks.map_values(|k: Seq<u8>| decode_utf8(k)),
        ),
{
    let l = comma_list(ks);
    assert(is_keyword_text(ks[0]));
    let d0 = decode_utf8(ks[0]);
    let ds = ks.map_values(|k: Seq<u8>| decode_utf8(k));
    if ks.len() == 1 {
        let e = Seq::<u8>::empty();
        assert(l =~= ks[0] + e);
        lemma_keyword_then(ks[0], e);
        assert(spec_keyword(l) == Outcome::Done(e, d0));
        assert(spec_single_comma(e) is Error);
        assert(spec_more_keywords(e, seq![d0]) == Outcome::Done(e, seq![d0]));
        assert(seq![d0] =~= ds);
    } else {
        let rest = ks.drop_first();
        assert(keyword_texts(rest)) by {
            assert forall|i: int| 0 <= i < rest.len() implies is_keyword_text(#[trigger] rest[i]) by {
                assert(rest[i] == ks[i + 1]);
            }
        }
        let r = seq![44u8] + comma_list(rest);
        assert(l == ks[0] + r);
        lemma_keyword_then(ks[0], r);
        assert(spec_keyword(l) == Outcome::Done(r, d0));
        lemma_more_keywords_list(rest, seq![d0]);
        assert(seq![d0] + rest.map_values(|k: Seq<u8>| decode_utf8(k)) =~= ds);
    }
}

/// A !KEYWORDS line reads as its keywords, each without surrounding white
/// space: after "0", spaces, "!KEYWORDS" and spaces, the keywords `ks`
/// separated by commas.
pub proof fn law_keywords_line(a0: Seq<u8>, a: Seq<u8>, ks: Seq<Seq<u8>>)
    requires
        is_space_run(a0),
        is_space_run(a),
        ks.len() >= 1,
        keyword_texts(ks),
        !is_space(ks[0][0]),
    ensures
        spec_read_line(seq![48u8] + (a0 + (keywords::KEYWORDS@ + (a + comma_list(ks))))) == Outcome::Done(
            Seq::<u8>::empty(),
            CommandModel::Keywords(ks.map_values(|k: Seq<u8>| trimmed(decode_utf8(k)))),
        ),
{
    let l = comma_list(ks);
    let s = keywords::KEYWORDS@ + (a + l);
    assert(s[0] == 33u8);
    lemma_type0_line(a0, s);
    lemma_tag_prefix(keywords::KEYWORDS@, a + l);
    assert(is_keyword_text(ks[0]));
    if ks.len() == 1 {
        assert(l == ks[0]);
    } else {
        assert(l == ks[0] + (seq![44u8] + comma_list(ks.drop_first())));
    }
    assert(l[0] == ks[0][0]);
    law_space_run_separates(a, l);
    lemma_keywords_list(ks);
    let ds = ks.map_values(|k: Seq<u8>| decode_utf8(k));
    assert(ds.map_values(|k: Seq<char>| trimmed(k)) =~= ks.map_values(|k: Seq<u8>| trimmed(decode_utf8(k))));
    assert(spec_keywords(s) == Outcome::Done(
        Seq::<u8>::empty(),
        CommandModel::Keywords(ks.map_values(|k: Seq<u8>| trimmed(decode_utf8(k)))),
    ));
    law_meta_command_is_itself(s);
}

/// Nothing more is read of a colour at the end of its line.
proof fn lemma_no_colour_tail(name: Seq<char>, code: u32, value: Color, edge: Color)
    ensures
        spec_colour_tail(Seq::<u8>::empty(), name, code, value, edge) == Outcome::Done(
            Seq::<u8>::empty(),
            CommandModel::Colour(
                ColourModel { name, code, value, edge, alpha: None, luminance: None, finish: None },
            ),
        ),
{
    let e = Seq::<u8>::empty();
    assert(span(e, ByteClass::Space) == 0);
    assert(spec_sp(e) is Error);
    assert(spec_sp_word_sp(e, keywords::ALPHA@, false) is Error);
    assert(spec_sp_word_sp(e, keywords::LUMINANCE@, false) is Error);
    assert(spec_colour_alpha(e) == Outcome::<Option<u8>>::Done(e, None));
    assert(spec_colour_luminance(e) == Outcome::<Option<u8>>::Done(e, None));
    assert(spec_color_finish(e) == Outcome::<Option<crate::types::ColorFinishModel>>::Done(e, None));
}

/// A keyword with its case between separators: "KEYWORD" then spaces.
proof fn lemma_sp_tag_sp(b: Seq<u8>, kw: Seq<u8>, a: Seq<u8>, rest: Seq<u8>)
    requires
        is_space_run(b),
        is_space_run(a),
        kw.len() > 0 && !is_space(kw[0]),
        rest.len() > 0 && !is_space(rest[0]),
    ensures
        spec_sp_word_sp(b + (kw + (a + rest)), kw, false) == Outcome::Done(rest, a),
{
    assert((kw + (a + rest))[0] == kw[0]);
    law_space_run_separates(b, kw + (a + rest));
    lemma_tag_prefix(kw, a + rest);
    law_space_run_separates(a, rest);
}

/// A !COLOUR line reads as its colour: after "0", spaces and "!COLOUR", its
/// name `n` (a token), its code `c` (any `u32`), its value and its edge
/// (written `h` and `g`), each after its keyword, with any runs of spaces
/// and tabs `a` between them; the command holds the name, the colour that
/// `c` stands for, and the two colours, and nothing else.
pub proof fn law_colour_line(
    a0: Seq<u8>,
    a: Seq<Seq<u8>>,
    n: Seq<u8>,
    c: Seq<u8>,
    h: Seq<u8>,
    value: Color,
    g: Seq<u8>,
    edge: Color,
)
    requires
        is_space_run(a0),
        a.len() == 7,
        forall|j: int| 0 <= j < 7 ==> is_space_run(#[trigger] a[j]),
        n.len() > 0,
        crate::alike::no_space(n),
        valid_utf8(n),
        is_colour_code(c),
        spec_hex_color(h) == Outcome::Done(Seq::<u8>::empty(), value),
        spec_hex_color(g) == Outcome::Done(Seq::<u8>::empty(), edge),
    ensures
        spec_read_line(colour_line(a0, a, n, c, h, g)
        ) == Outcome::Done(
            Seq::<u8>::empty(),
            CommandModel::Colour(
                ColourModel {
                    name: decode_utf8(n),
                    code: decimal_value(c) as u32,
                    value,
                    edge,
                    alpha: None,
                    luminance: None,
                    finish: None,
                },
            ),
        ),
{
    let e = Seq::<u8>::empty();
    let r7 = g;
    let r6 = keywords::EDGE@ + (a[6] + g);
    let r5 = h + (a[5] + r6);
    let r4 = keywords::VALUE@ + (a[4] + r5);
    let r3 = c + (a[3] + r4);
    let r2 = keywords::CODE@ + (a[2] + r3);
    let r1 = n + (a[1] + r2);
    let s = keywords::COLOUR@ + (a[0] + r1);
    assert(is_space_run(a[0]) && is_space_run(a[1]) && is_space_run(a[2]) && is_space_run(a[3]));
    assert(is_space_run(a[4]) && is_space_run(a[5]) && is_space_run(a[6]));
    // The tokens begin with no space.
    assert(h.take(1) == keywords::HASH@);
    assert(h.take(1)[0] == h[0] && g.take(1) == keywords::HASH@ && g.take(1)[0] == g[0]);
    assert(r5[0] == h[0] && r1[0] == n[0] && r3[0] == c[0]);
    assert(crate::bytes::is_digit(c[0]));
    lemma_tag_prefix(keywords::COLOUR@, a[0] + r1);
    law_space_run_separates(a[0], r1);
    // The name: a token, then spaces.
    assert(!is_space(n[0]));
    assert forall|j: int| 0 <= j < n.len() implies crate::bytes::in_class(#[trigger] n[j], ByteClass::NotSpace) by {
        assert(!is_space(n[j]));
    }
    crate::laws::lemma_span_after(n, a[1] + r2, ByteClass::NotSpace);
    assert((a[1] + r2)[0] == a[1][0]);
    assert(span(a[1] + r2, ByteClass::NotSpace) == 0);
    assert(r1.skip(n.len() as int) =~= a[1] + r2);
    assert(r1.take(n.len() as int) =~= n);
    lemma_sp_tag_sp(a[1], keywords::CODE@, a[2], r3);
    assert((a[3] + r4)[0] == a[3][0]);
    lemma_color_id_then(c, a[3] + r4);
    lemma_sp_tag_sp(a[3], keywords::VALUE@, a[4], r5);
    crate::tokens::lemma_colour_then(h, value, a[5] + r6);
    lemma_sp_tag_sp(a[5], keywords::EDGE@, a[6], r7);
    crate::tokens::lemma_colour_then(g, edge, e);
    assert(g + e =~= g);
    lemma_no_colour_tail(decode_utf8(n), decimal_value(c) as u32, value, edge);
    assert(spec_meta_colour(s) is Done);
    law_meta_command_is_itself(s);
    assert(s[0] == 33u8);
    lemma_type0_line(a0, s);
}

/// "0 !COLOUR n CODE c VALUE h EDGE g", with the runs of spaces and tabs
/// `a0` and `a` between its tokens.
pub open spec fn colour_line(
    a0: Seq<u8>,
    a: Seq<Seq<u8>>,
    n: Seq<u8>,
    c: Seq<u8>,
    h: Seq<u8>,
    g: Seq<u8>,
) -> Seq<u8> {
    let r6 = keywords::EDGE@ + (a[6] + g);
    let r5 = h + (a[5] + r6);
    let r4 = keywords::VALUE@ + (a[4] + r5);
    let r3 = c + (a[3] + r4);
    let r2 = keywords::CODE@ + (a[2] + r3);
    let r1 = n + (a[1] + r2);
    seq![48u8] + (a0 + (keywords::COLOUR@ + (a[0] + r1)))
}

} // verus!
