//! What a command reads of its line: never past the line's end. Files read
//! alike with <LF> and with <CR><LF> line ends.

use vstd::prelude::*;
use crate::alike::{
    after, lemma_decimal_then, lemma_float_then, lemma_tag_no_case_then, lemma_tag_then,
    lemma_two_hex_digits_then, no_space,
};
use crate::bytes::{
    in_class, is_cr_or_lf, lemma_span_bound, lemma_span_concat, span, spec_read_cmd_id_str,
    spec_single_comma, spec_sp, spec_space0, spec_space_or_eol0, spec_tag, spec_tag_no_case,
    spec_take_not_comma_or_eol, spec_take_not_cr_or_lf, spec_take_not_space, spec_take_while,
    spec_take_while1, ByteClass,
};
use crate::colour::{
    spec_color_finish, spec_colour_alpha, spec_colour_luminance, spec_colour_tail,
    spec_finish_choice, spec_finish_word, spec_glitter_material, spec_grain_min_max_size,
    spec_grain_size, spec_material_finish, spec_material_grain_size, spec_material_head,
    spec_meta_colour, spec_other_material, spec_speckle_material, spec_sp_word_sp,
    spec_tagged_u8, spec_word_sp,
};
use crate::geometry::{
    spec_file_ref_cmd, spec_filename, spec_four_vertices, spec_line_cmd, spec_opt_line_cmd,
    spec_quad_cmd, spec_quad_uvs, spec_sp_vec2, spec_sp_vec3, spec_tri_cmd, spec_tri_uvs,
};
use crate::keywords;
use crate::laws::{is_blank, is_one_line, lemma_ignored_line_after_blank, lemma_read_line_after_blank};
use crate::meta::{
    spec_category, spec_comment, spec_keyword, spec_keywords, spec_keywords_list,
    spec_meta_base_64_data, spec_meta_data, spec_meta_file, spec_meta_nofile, spec_more_keywords,
};
use crate::number::{
    mantissa_len, sign_len, spec_color_id, spec_decimal, spec_float, spec_hex_color,
    spec_hex_primary, spec_read_vec2, spec_read_vec3,
};
use crate::outcome::{either, optional, ErrorKind, Outcome};
use crate::parse::{
    lemma_read_line_progress, line_type_of, spec_command, spec_ignored_line, spec_lines,
    spec_meta_cmd, spec_parse_raw, spec_read_line,
};
use crate::text::{as_base64, as_utf8};
use crate::types::{Color, ColorFinishModel, CommandModel};

verus! {

/// The end of a line, and what follows it.
pub open spec fn line_end(r: Seq<u8>) -> bool {
    r.len() > 0 && is_cr_or_lf(r[0])
}

/// A parse of `w + r`, where `w` is the rest of a line and `r` begins with
/// its end, is that of `w` with `r` after it: nothing past the line's end is
/// read, and what is left of the line is still on the line.
pub open spec fn within_line<V>(o: Outcome<V>, ow: Outcome<V>, w: Seq<u8>, r: Seq<u8>) -> bool {
    &&& o == after(ow, r)
    &&& ow matches Outcome::Done(q, _) ==> ends(q, w)
}

/// `q` is what is left at the end of `w`.
pub open spec fn ends(q: Seq<u8>, w: Seq<u8>) -> bool {
    q.len() <= w.len() && w.skip(w.len() - q.len()) == q
}

/// What is left of what is left is left at the end.
pub proof fn lemma_ends_trans(q2: Seq<u8>, q1: Seq<u8>, w: Seq<u8>)
    requires
        ends(q2, q1),
        ends(q1, w),
        is_one_line(w),
    ensures
        ends(q2, w),
        is_one_line(q1),
        is_one_line(q2),
{
    assert(w.skip(w.len() - q2.len()) =~= q1.skip(q1.len() - q2.len()));
    lemma_skip_one_line(w, w.len() - q1.len());
    lemma_skip_one_line(w, w.len() - q2.len());
}

/// What is left of a line is on the line.
pub proof fn lemma_ends_one_line(q: Seq<u8>, w: Seq<u8>)
    requires
        ends(q, w),
        is_one_line(w),
    ensures
        is_one_line(q),
        ends(q, q),
{
    lemma_skip_one_line(w, w.len() - q.len());
    assert(q.skip(0) =~= q);
}

/// What follows a part of a line is on the line.
pub proof fn lemma_skip_one_line(w: Seq<u8>, k: int)
    requires
        is_one_line(w),
        0 <= k <= w.len(),
    ensures
        is_one_line(w.skip(k)),
{
    assert forall|j: int| 0 <= j < w.skip(k).len() implies !is_cr_or_lf(#[trigger] w.skip(k)[j]) by {
        assert(w.skip(k)[j] == w[k + j]);
    }
}

/// A run of a class without <CR> and <LF>.
proof fn lemma_take_while_within(w: Seq<u8>, r: Seq<u8>, k: ByteClass, e: ErrorKind)
    requires
        is_one_line(w),
        line_end(r),
        !in_class(r[0], k),
    ensures
        within_line(spec_take_while(w + r, k), spec_take_while(w, k), w, r),
        within_line(spec_take_while1(w + r, k, e), spec_take_while1(w, k, e), w, r),
{
    lemma_span_concat(w, r, k);
    lemma_span_bound(w, k);
    let n = span(w, k) as int;
    assert((w + r).skip(n) =~= w.skip(n) + r);
    assert((w + r).take(n) =~= w.take(n));
}

pub proof fn lemma_spaces_within(w: Seq<u8>, r: Seq<u8>)
    requires
        is_one_line(w),
        line_end(r),
    ensures
        within_line(spec_sp(w + r), spec_sp(w), w, r),
        within_line(spec_space0(w + r), spec_space0(w), w, r),
        within_line(spec_take_not_cr_or_lf(w + r), spec_take_not_cr_or_lf(w), w, r),
        within_line(spec_take_not_comma_or_eol(w + r), spec_take_not_comma_or_eol(w), w, r),
{
    lemma_take_while_within(w, r, ByteClass::Space, ErrorKind::Space);
    lemma_take_while_within(w, r, ByteClass::NotCrOrLf, ErrorKind::Space);
    lemma_take_while_within(w, r, ByteClass::NotCommaOrEol, ErrorKind::TakeWhile1);
}

/// A keyword read from a line.
pub proof fn lemma_tags_within(w: Seq<u8>, r: Seq<u8>, kw: Seq<u8>)
    requires
        is_one_line(w),
        line_end(r),
        no_space(kw),
        is_one_line(kw),
    ensures
        within_line(spec_tag(w + r, kw), spec_tag(w, kw), w, r),
        within_line(spec_tag_no_case(w + r, kw), spec_tag_no_case(w, kw), w, r),
{
    lemma_tag_then(w, r, kw);
    lemma_tag_no_case_then(w, r, kw);
}

/// A decimal number read from a line.
pub proof fn lemma_decimal_within(w: Seq<u8>, r: Seq<u8>, max: u32)
    requires
        is_one_line(w),
        line_end(r),
    ensures
        within_line(spec_decimal(w + r, max), spec_decimal(w, max), w, r),
{
    lemma_decimal_then(w, r, max);
    lemma_span_bound(w, ByteClass::Digit);
}

/// Two hexadecimal digits read from a line.
pub proof fn lemma_hex_primary_within(w: Seq<u8>, r: Seq<u8>)
    requires
        is_one_line(w),
        line_end(r),
    ensures
        within_line(spec_hex_primary(w + r), spec_hex_primary(w), w, r),
{
    lemma_two_hex_digits_then(w, r);
}

/// What nom's `float` leaves is left at the end of its input.
proof fn lemma_float_rest(w: Seq<u8>)
    ensures
        spec_float(w) matches Outcome::Done(q, _) ==> ends(q, w),
{
    let sl = sign_len(w);
    let t = w.skip(sl);
    lemma_span_bound(t, ByteClass::Digit);
    let d = span(t, ByteClass::Digit) as int;
    if d < t.len() {
        lemma_span_bound(t.skip(d + 1), ByteClass::Digit);
    }
    if t.len() > 0 {
        lemma_span_bound(t.skip(1), ByteClass::Digit);
    }
    let m = mantissa_len(t);
    if m >= 0 {
        crate::alike::lemma_mantissa_bound(t);
        let u = t.skip(m);
        assert(u =~= w.skip(sl + m));
        if u.len() > 0 && (u[0] == 101 || u[0] == 69) {
            let k = 1 + sign_len(u.skip(1));
            let v = u.skip(k);
            assert(v =~= w.skip(sl + m + k));
            lemma_span_bound(v, ByteClass::Digit);
            let e = span(v, ByteClass::Digit) as int;
            assert(v.skip(e) =~= w.skip(sl + m + k + e));
        }
    }
}

/// A number read from a line.
pub proof fn lemma_float_within(w: Seq<u8>, r: Seq<u8>)
    requires
        is_one_line(w),
        line_end(r),
    ensures
        within_line(spec_float(w + r), spec_float(w), w, r),
{
    lemma_float_then(w, r);
    lemma_float_rest(w);
}

/// Text read as UTF-8 from a line.
pub proof fn lemma_as_utf8_within(w: Seq<u8>, r: Seq<u8>, o: Outcome<Seq<u8>>)
    requires
        o matches Outcome::Done(q, _) ==> ends(q, w),
    ensures
        within_line(as_utf8(w + r, after(o, r)), as_utf8(w, o), w, r),
{
}

/// Data read as Base64 from a line.
pub proof fn lemma_as_base64_within(w: Seq<u8>, r: Seq<u8>, o: Outcome<Seq<u8>>)
    requires
        o matches Outcome::Done(q, _) ==> ends(q, w),
    ensures
        within_line(as_base64(w + r, after(o, r)), as_base64(w, o), w, r),
{
}

/// An optional part of a line.
pub proof fn lemma_optional_within<V>(w: Seq<u8>, r: Seq<u8>, o: Outcome<V>)
    requires
        o matches Outcome::Done(q, _) ==> ends(q, w),
    ensures
        within_line(optional(w + r, after(o, r)), optional(w, o), w, r),
{
    assert(w.skip(0) =~= w);
}

/// A choice of two parts of a line.
pub proof fn lemma_either_within<V>(w: Seq<u8>, r: Seq<u8>, a: Outcome<V>, b: Outcome<V>)
    requires
        a matches Outcome::Done(q, _) ==> ends(q, w),
        b matches Outcome::Done(q, _) ==> ends(q, w),
    ensures
        within_line(either(after(a, r), after(b, r)), either(a, b), w, r),
{
}

/// A line is left at its own end.
pub proof fn lemma_ends_self(w: Seq<u8>)
    ensures
        ends(w, w),
{
    assert(w.skip(0) =~= w);
}

/// Two numbers read from a line.
proof fn lemma_read_vec2_within(w: Seq<u8>, r: Seq<u8>)
    requires
        is_one_line(w),
        line_end(r),
    ensures
        within_line(spec_read_vec2(w + r), spec_read_vec2(w), w, r),
{
    lemma_float_within(w, r);
    if let Outcome::Done(a, _) = spec_float(w) {
        lemma_ends_one_line(a, w);
        lemma_spaces_within(a, r);
        if let Outcome::Done(b, _) = spec_sp(a) {
            lemma_ends_trans(b, a, w);
            lemma_float_within(b, r);
            if let Outcome::Done(c, _) = spec_float(b) {
                lemma_ends_trans(c, b, w);
            }
        }
    }
}

/// Three numbers read from a line.
proof fn lemma_read_vec3_within(w: Seq<u8>, r: Seq<u8>)
    requires
        is_one_line(w),
        line_end(r),
    ensures
        within_line(spec_read_vec3(w + r), spec_read_vec3(w), w, r),
{
    lemma_float_within(w, r);
    if let Outcome::Done(a, _) = spec_float(w) {
        lemma_ends_one_line(a, w);
        lemma_spaces_within(a, r);
        if let Outcome::Done(b, _) = spec_sp(a) {
            lemma_ends_trans(b, a, w);
            lemma_float_within(b, r);
            if let Outcome::Done(c, _) = spec_float(b) {
                lemma_ends_trans(c, b, w);
                lemma_spaces_within(c, r);
                if let Outcome::Done(d, _) = spec_sp(c) {
                    lemma_ends_trans(d, c, w);
                    lemma_float_within(d, r);
                    if let Outcome::Done(e, _) = spec_float(d) {
                        lemma_ends_trans(e, d, w);
                    }
                }
            }
        }
    }
}

/// Spaces and two or three numbers read from a line.
proof fn lemma_sp_vec_within(w: Seq<u8>, r: Seq<u8>)
    requires
        is_one_line(w),
        line_end(r),
    ensures
        within_line(spec_sp_vec2(w + r), spec_sp_vec2(w), w, r),
        within_line(spec_sp_vec3(w + r), spec_sp_vec3(w), w, r),
{
    lemma_spaces_within(w, r);
    if let Outcome::Done(a, _) = spec_sp(w) {
        lemma_ends_one_line(a, w);
        lemma_read_vec2_within(a, r);
        lemma_read_vec3_within(a, r);
        if let Outcome::Done(b, _) = spec_read_vec2(a) {
            lemma_ends_trans(b, a, w);
        }
        if let Outcome::Done(b, _) = spec_read_vec3(a) {
            lemma_ends_trans(b, a, w);
        }
    }
}

/// A colour code read from a line.
proof fn lemma_color_id_within(w: Seq<u8>, r: Seq<u8>)
    requires
        is_one_line(w),
        line_end(r),
    ensures
        within_line(spec_color_id(w + r), spec_color_id(w), w, r),
{
    lemma_decimal_within(w, r, u32::MAX);
}

/// A file name: the rest of the line.
proof fn lemma_filename_within(w: Seq<u8>, r: Seq<u8>)
    requires
        is_one_line(w),
        line_end(r),
    ensures
        within_line(spec_filename(w + r), spec_filename(w), w, r),
{
    lemma_spaces_within(w, r);
    lemma_as_utf8_within(w, r, spec_take_not_cr_or_lf(w));
}

/// Lines, read from a line.
proof fn lemma_line_cmd_within(w: Seq<u8>, r: Seq<u8>)
    requires
        is_one_line(w),
        line_end(r),
    ensures
        within_line(spec_line_cmd(w + r), spec_line_cmd(w), w, r),
{
    lemma_color_id_within(w, r);
    if let Outcome::Done(a, _) = spec_color_id(w) {
        lemma_ends_one_line(a, w);
        lemma_sp_vec_within(a, r);
        if let Outcome::Done(b, _) = spec_sp_vec3(a) {
            lemma_ends_trans(b, a, w);
            lemma_sp_vec_within(b, r);
            if let Outcome::Done(c, _) = spec_sp_vec3(b) {
                lemma_ends_trans(c, b, w);
                lemma_spaces_within(c, r);
                if let Outcome::Done(d, _) = spec_space0(c) {
                    lemma_ends_trans(d, c, w);
                }
            }
        }
    }
}

/// Triangles, read from a line.
#[verifier::rlimit(80)]
proof fn lemma_tri_within(w: Seq<u8>, r: Seq<u8>)
    requires
        is_one_line(w),
        line_end(r),
    ensures
        within_line(spec_tri_cmd(w + r), spec_tri_cmd(w), w, r),
{
    lemma_color_id_within(w, r);
    if let Outcome::Done(a, _) = spec_color_id(w) {
        lemma_ends_one_line(a, w);
        lemma_sp_vec_within(a, r);
        if let Outcome::Done(b, _) = spec_sp_vec3(a) {
            lemma_ends_trans(b, a, w);
            lemma_sp_vec_within(b, r);
            if let Outcome::Done(c, _) = spec_sp_vec3(b) {
                lemma_ends_trans(c, b, w);
                lemma_sp_vec_within(c, r);
                if let Outcome::Done(d, _) = spec_sp_vec3(c) {
                    lemma_ends_trans(d, c, w);
                    lemma_spaces_within(d, r);
                    if let Outcome::Done(e, _) = spec_space0(d) {
                        lemma_ends_trans(e, d, w);
                        lemma_tri_uvs_within(e, r);
                        lemma_optional_within(e, r, spec_tri_uvs(e));
                        if let Outcome::Done(f, _) = optional(e, spec_tri_uvs(e)) {
                            lemma_ends_trans(f, e, w);
                        }
                    }
                }
            }
        }
    }
}

/// Sub-file references, read from a line.
#[verifier::rlimit(80)]
proof fn lemma_file_ref_within(w: Seq<u8>, r: Seq<u8>)
    requires
        is_one_line(w),
        line_end(r),
    ensures
        within_line(spec_file_ref_cmd(w + r), spec_file_ref_cmd(w), w, r),
{
    lemma_color_id_within(w, r);
    if let Outcome::Done(a, _) = spec_color_id(w) {
        lemma_ends_one_line(a, w);
        lemma_sp_vec_within(a, r);
        if let Outcome::Done(b, _) = spec_sp_vec3(a) {
            lemma_ends_trans(b, a, w);
            lemma_sp_vec_within(b, r);
            if let Outcome::Done(c, _) = spec_sp_vec3(b) {
                lemma_ends_trans(c, b, w);
                lemma_sp_vec_within(c, r);
                if let Outcome::Done(d, _) = spec_sp_vec3(c) {
                    lemma_ends_trans(d, c, w);
                    lemma_sp_vec_within(d, r);
                    if let Outcome::Done(e, _) = spec_sp_vec3(d) {
                        lemma_ends_trans(e, d, w);
                        lemma_spaces_within(e, r);
                        if let Outcome::Done(f, _) = spec_sp(e) {
                            lemma_ends_trans(f, e, w);
                            lemma_filename_within(f, r);
                            if let Outcome::Done(g, _) = spec_filename(f) {
                                lemma_ends_trans(g, f, w);
                            }
                        }
                    }
                }
            }
        }
    }
}

/// The texture coordinates of a triangle, read from a line.
proof fn lemma_tri_uvs_within(w: Seq<u8>, r: Seq<u8>)
    requires
        is_one_line(w),
        line_end(r),
    ensures
        within_line(spec_tri_uvs(w + r), spec_tri_uvs(w), w, r),
        spec_tri_uvs(w) matches Outcome::Done(q, _) ==> ends(q, w),
{
    lemma_read_vec2_within(w, r);
    if let Outcome::Done(a, _) = spec_read_vec2(w) {
        lemma_ends_one_line(a, w);
        lemma_sp_vec_within(a, r);
        if let Outcome::Done(b, _) = spec_sp_vec2(a) {
            lemma_ends_trans(b, a, w);
            lemma_sp_vec_within(b, r);
            if let Outcome::Done(c, _) = spec_sp_vec2(b) {
                lemma_ends_trans(c, b, w);
                lemma_spaces_within(c, r);
                if let Outcome::Done(d, _) = spec_space0(c) {
                    lemma_ends_trans(d, c, w);
                }
            }
        }
    }
}

/// The texture coordinates of a quadrilateral, read from a line.
proof fn lemma_quad_uvs_within(w: Seq<u8>, r: Seq<u8>)
    requires
        is_one_line(w),
        line_end(r),
    ensures
        within_line(spec_quad_uvs(w + r), spec_quad_uvs(w), w, r),
{
    lemma_read_vec2_within(w, r);
    if let Outcome::Done(a, _) = spec_read_vec2(w) {
        lemma_ends_one_line(a, w);
        lemma_sp_vec_within(a, r);
        if let Outcome::Done(b, _) = spec_sp_vec2(a) {
            lemma_ends_trans(b, a, w);
            lemma_sp_vec_within(b, r);
            if let Outcome::Done(c, _) = spec_sp_vec2(b) {
                lemma_ends_trans(c, b, w);
                lemma_spaces_within(c, r);
                if let Outcome::Done(d, _) = spec_space0(c) {
                    lemma_ends_trans(d, c, w);
                    lemma_read_vec2_within(d, r);
                    if let Outcome::Done(e, _) = spec_read_vec2(d) {
                        lemma_ends_trans(e, d, w);
                        lemma_spaces_within(e, r);
                        if let Outcome::Done(f, _) = spec_space0(e) {
                            lemma_ends_trans(f, e, w);
                        }
                    }
                }
            }
        }
    }
}

/// Four vertices, read from a line.
proof fn lemma_four_vertices_within(w: Seq<u8>, r: Seq<u8>)
    requires
        is_one_line(w),
        line_end(r),
    ensures
        within_line(spec_four_vertices(w + r), spec_four_vertices(w), w, r),
{
    lemma_sp_vec_within(w, r);
    if let Outcome::Done(a, _) = spec_sp_vec3(w) {
        lemma_ends_one_line(a, w);
        lemma_sp_vec_within(a, r);
        if let Outcome::Done(b, _) = spec_sp_vec3(a) {
            lemma_ends_trans(b, a, w);
            lemma_sp_vec_within(b, r);
            if let Outcome::Done(c, _) = spec_sp_vec3(b) {
                lemma_ends_trans(c, b, w);
                lemma_sp_vec_within(c, r);
                if let Outcome::Done(d, _) = spec_sp_vec3(c) {
                    lemma_ends_trans(d, c, w);
                    lemma_spaces_within(d, r);
                    if let Outcome::Done(e, _) = spec_space0(d) {
                        lemma_ends_trans(e, d, w);
                    }
                }
            }
        }
    }
}

/// Quadrilaterals and optional lines, read from a line.
proof fn lemma_quad_within(w: Seq<u8>, r: Seq<u8>)
    requires
        is_one_line(w),
        line_end(r),
    ensures
        within_line(spec_quad_cmd(w + r), spec_quad_cmd(w), w, r),
        within_line(spec_opt_line_cmd(w + r), spec_opt_line_cmd(w), w, r),
{
    lemma_color_id_within(w, r);
    if let Outcome::Done(a, _) = spec_color_id(w) {
        lemma_ends_one_line(a, w);
        lemma_four_vertices_within(a, r);
        if let Outcome::Done(b, _) = spec_four_vertices(a) {
            lemma_ends_trans(b, a, w);
            lemma_quad_uvs_within(b, r);
            lemma_optional_within(b, r, spec_quad_uvs(b));
            if let Outcome::Done(c, _) = optional(b, spec_quad_uvs(b)) {
                lemma_ends_trans(c, b, w);
            }
        }
    }
}

/// A keyword of a command: no space, on one line.
pub open spec fn is_word(kw: Seq<u8>) -> bool {
    no_space(kw) && is_one_line(kw)
}

proof fn lemma_colour_words()
    ensures
        is_word(keywords::COLOUR@),
        is_word(keywords::CODE@),
        is_word(keywords::VALUE@),
        is_word(keywords::EDGE@),
        is_word(keywords::ALPHA@),
        is_word(keywords::LUMINANCE@),
        is_word(keywords::SIZE@),
        is_word(keywords::MINSIZE@),
        is_word(keywords::MAXSIZE@),
        is_word(keywords::GLITTER@),
        is_word(keywords::SPECKLE@),
        is_word(keywords::FRACTION@),
        is_word(keywords::VFRACTION@),
        is_word(keywords::MATERIAL@),
        is_word(keywords::CHROME@),
        is_word(keywords::PEARLESCENT@),
        is_word(keywords::RUBBER@),
        is_word(keywords::MATTE_METALLIC@),
        is_word(keywords::METAL@),
        is_word(keywords::HASH@),
{
}

/// A keyword then spaces, and spaces then a keyword then spaces.
proof fn lemma_word_sp_within(w: Seq<u8>, r: Seq<u8>, kw: Seq<u8>, no_case: bool)
    requires
        is_one_line(w),
        line_end(r),
        is_word(kw),
    ensures
        within_line(spec_word_sp(w + r, kw, no_case), spec_word_sp(w, kw, no_case), w, r),
        within_line(spec_sp_word_sp(w + r, kw, no_case), spec_sp_word_sp(w, kw, no_case), w, r),
{
    lemma_tags_within(w, r, kw);
    if no_case {
        if let Outcome::Done(a, _) = spec_tag_no_case(w, kw) {
            lemma_ends_one_line(a, w);
            lemma_spaces_within(a, r);
            if let Outcome::Done(b, _) = spec_sp(a) {
                lemma_ends_trans(b, a, w);
            }
        }
    } else {
        if let Outcome::Done(a, _) = spec_tag(w, kw) {
            lemma_ends_one_line(a, w);
            lemma_spaces_within(a, r);
            if let Outcome::Done(b, _) = spec_sp(a) {
                lemma_ends_trans(b, a, w);
            }
        }
    }
    lemma_spaces_within(w, r);
    if let Outcome::Done(a, _) = spec_sp(w) {
        lemma_ends_one_line(a, w);
        lemma_tags_within(a, r, kw);
        if no_case {
            if let Outcome::Done(b, _) = spec_tag_no_case(a, kw) {
                lemma_ends_trans(b, a, w);
                lemma_spaces_within(b, r);
                if let Outcome::Done(c, _) = spec_sp(b) {
                    lemma_ends_trans(c, b, w);
                }
            }
        } else {
            if let Outcome::Done(b, _) = spec_tag(a, kw) {
                lemma_ends_trans(b, a, w);
                lemma_spaces_within(b, r);
                if let Outcome::Done(c, _) = spec_sp(b) {
                    lemma_ends_trans(c, b, w);
                }
            }
        }
    }
}

/// A colour "#RRGGBB" read from a line.
proof fn lemma_hex_color_within(w: Seq<u8>, r: Seq<u8>)
    requires
        is_one_line(w),
        line_end(r),
    ensures
        within_line(spec_hex_color(w + r), spec_hex_color(w), w, r),
{
    lemma_colour_words();
    lemma_tags_within(w, r, keywords::HASH@);
    if let Outcome::Done(a, _) = spec_tag(w, keywords::HASH@) {
        lemma_ends_one_line(a, w);
        lemma_hex_primary_within(a, r);
        if let Outcome::Done(b, _) = spec_hex_primary(a) {
            lemma_ends_trans(b, a, w);
            lemma_hex_primary_within(b, r);
            if let Outcome::Done(c, _) = spec_hex_primary(b) {
                lemma_ends_trans(c, b, w);
                lemma_hex_primary_within(c, r);
                if let Outcome::Done(d, _) = spec_hex_primary(c) {
                    lemma_ends_trans(d, c, w);
                }
            }
        }
    }
}

/// The ALPHA and LUMINANCE parts, read from a line.
proof fn lemma_alpha_luminance_within(w: Seq<u8>, r: Seq<u8>)
    requires
        is_one_line(w),
        line_end(r),
    ensures
        within_line(spec_colour_alpha(w + r), spec_colour_alpha(w), w, r),
        within_line(spec_colour_luminance(w + r), spec_colour_luminance(w), w, r),
{
    lemma_colour_words();
    lemma_word_sp_within(w, r, keywords::ALPHA@, false);
    if let Outcome::Done(a, _) = spec_sp_word_sp(w, keywords::ALPHA@, false) {
        lemma_ends_one_line(a, w);
        lemma_decimal_within(a, r, 255);
        if let Outcome::Done(b, _) = spec_decimal(a, 255) {
            lemma_ends_trans(b, a, w);
        }
    }
    lemma_optional_within(w, r, spec_tagged_u8(w, keywords::ALPHA@));
    lemma_word_sp_within(w, r, keywords::LUMINANCE@, false);
    if let Outcome::Done(a, _) = spec_sp_word_sp(w, keywords::LUMINANCE@, false) {
        lemma_ends_one_line(a, w);
        lemma_decimal_within(a, r, 255);
        if let Outcome::Done(b, _) = spec_decimal(a, 255) {
            lemma_ends_trans(b, a, w);
        }
    }
    lemma_optional_within(w, r, spec_tagged_u8(w, keywords::LUMINANCE@));
}

/// The grain size of a material, read from a line.
proof fn lemma_grain_size_within(w: Seq<u8>, r: Seq<u8>)
    requires
        is_one_line(w),
        line_end(r),
    ensures
        within_line(spec_material_grain_size(w + r), spec_material_grain_size(w), w, r),
{
    lemma_colour_words();
    lemma_word_sp_within(w, r, keywords::SIZE@, false);
    if let Outcome::Done(a, _) = spec_word_sp(w, keywords::SIZE@, false) {
        lemma_ends_one_line(a, w);
        lemma_float_within(a, r);
        if let Outcome::Done(b, _) = spec_float(a) {
            lemma_ends_trans(b, a, w);
        }
    }
    lemma_word_sp_within(w, r, keywords::MINSIZE@, false);
    if let Outcome::Done(a, _) = spec_word_sp(w, keywords::MINSIZE@, false) {
        lemma_ends_one_line(a, w);
        lemma_float_within(a, r);
        if let Outcome::Done(b, _) = spec_float(a) {
            lemma_ends_trans(b, a, w);
            lemma_word_sp_within(b, r, keywords::MAXSIZE@, false);
            if let Outcome::Done(c, _) = spec_sp_word_sp(b, keywords::MAXSIZE@, false) {
                lemma_ends_trans(c, b, w);
                lemma_float_within(c, r);
                if let Outcome::Done(d, _) = spec_float(c) {
                    lemma_ends_trans(d, c, w);
                }
            }
        }
    }
    lemma_either_within(w, r, spec_grain_size(w), spec_grain_min_max_size(w));
}

/// The head of a material, read from a line.
proof fn lemma_material_head_within(w: Seq<u8>, r: Seq<u8>, kw: Seq<u8>)
    requires
        is_one_line(w),
        line_end(r),
        is_word(kw),
    ensures
        within_line(spec_material_head(w + r, kw), spec_material_head(w, kw), w, r),
{
    lemma_colour_words();
    lemma_word_sp_within(w, r, kw, true);
    if let Outcome::Done(a, _) = spec_word_sp(w, kw, true) {
        lemma_ends_one_line(a, w);
        lemma_word_sp_within(a, r, keywords::VALUE@, true);
        if let Outcome::Done(b, _) = spec_word_sp(a, keywords::VALUE@, true) {
            lemma_ends_trans(b, a, w);
            lemma_hex_color_within(b, r);
            if let Outcome::Done(c, _) = spec_hex_color(b) {
                lemma_ends_trans(c, b, w);
                lemma_alpha_luminance_within(c, r);
                if let Outcome::Done(d, _) = spec_colour_alpha(c) {
                    lemma_ends_trans(d, c, w);
                    lemma_alpha_luminance_within(d, r);
                    if let Outcome::Done(e, _) = spec_colour_luminance(d) {
                        lemma_ends_trans(e, d, w);
                    }
                }
            }
        }
    }
}

/// GLITTER and SPECKLE materials, read from a line.
#[verifier::rlimit(60)]
proof fn lemma_glitter_speckle_within(w: Seq<u8>, r: Seq<u8>)
    requires
        is_one_line(w),
        line_end(r),
    ensures
        within_line(spec_glitter_material(w + r), spec_glitter_material(w), w, r),
        within_line(spec_speckle_material(w + r), spec_speckle_material(w), w, r),
{
    lemma_colour_words();
    lemma_material_head_within(w, r, keywords::GLITTER@);
    if let Outcome::Done(a, _) = spec_material_head(w, keywords::GLITTER@) {
        lemma_ends_one_line(a, w);
        lemma_word_sp_within(a, r, keywords::FRACTION@, true);
        if let Outcome::Done(b, _) = spec_sp_word_sp(a, keywords::FRACTION@, true) {
            lemma_ends_trans(b, a, w);
            lemma_float_within(b, r);
            if let Outcome::Done(c, _) = spec_float(b) {
                lemma_ends_trans(c, b, w);
                lemma_word_sp_within(c, r, keywords::VFRACTION@, true);
                if let Outcome::Done(d, _) = spec_sp_word_sp(c, keywords::VFRACTION@, true) {
                    lemma_ends_trans(d, c, w);
                    lemma_float_within(d, r);
                    if let Outcome::Done(e, _) = spec_float(d) {
                        lemma_ends_trans(e, d, w);
                        lemma_spaces_within(e, r);
                        if let Outcome::Done(f, _) = spec_sp(e) {
                            lemma_ends_trans(f, e, w);
                            lemma_grain_size_within(f, r);
                            if let Outcome::Done(g, _) = spec_material_grain_size(f) {
                                lemma_ends_trans(g, f, w);
                            }
                        }
                    }
                }
            }
        }
    }
    lemma_material_head_within(w, r, keywords::SPECKLE@);
    if let Outcome::Done(a, _) = spec_material_head(w, keywords::SPECKLE@) {
        lemma_ends_one_line(a, w);
        lemma_word_sp_within(a, r, keywords::FRACTION@, true);
        if let Outcome::Done(b, _) = spec_sp_word_sp(a, keywords::FRACTION@, true) {
            lemma_ends_trans(b, a, w);
            lemma_float_within(b, r);
            if let Outcome::Done(c, _) = spec_float(b) {
                lemma_ends_trans(c, b, w);
                lemma_spaces_within(c, r);
                if let Outcome::Done(f, _) = spec_sp(c) {
                    lemma_ends_trans(f, c, w);
                    lemma_grain_size_within(f, r);
                    if let Outcome::Done(g, _) = spec_material_grain_size(f) {
                        lemma_ends_trans(g, f, w);
                    }
                }
            }
        }
    }
}

/// MATERIAL and what follows it, read from a line.
proof fn lemma_material_finish_within(w: Seq<u8>, r: Seq<u8>)
    requires
        is_one_line(w),
        line_end(r),
    ensures
        within_line(spec_material_finish(w + r), spec_material_finish(w), w, r),
{
    lemma_colour_words();
    lemma_word_sp_within(w, r, keywords::MATERIAL@, true);
    if let Outcome::Done(a, _) = spec_word_sp(w, keywords::MATERIAL@, true) {
        lemma_ends_one_line(a, w);
        lemma_glitter_speckle_within(a, r);
        lemma_spaces_within(a, r);
        lemma_as_utf8_within(a, r, spec_take_not_cr_or_lf(a));
        assert(within_line(spec_other_material(a + r), spec_other_material(a), a, r));
        if let Outcome::Done(b, _) = spec_glitter_material(a) {
            lemma_ends_trans(b, a, w);
        }
        if let Outcome::Done(b, _) = spec_speckle_material(a) {
            lemma_ends_trans(b, a, w);
        }
        if let Outcome::Done(b, _) = spec_other_material(a) {
            lemma_ends_trans(b, a, w);
        }
    }
}

/// A finish keyword, read from a line.
proof fn lemma_finish_word_within(w: Seq<u8>, r: Seq<u8>, kw: Seq<u8>, f: ColorFinishModel)
    requires
        is_one_line(w),
        line_end(r),
        is_word(kw),
    ensures
        within_line(spec_finish_word(w + r, kw, f), spec_finish_word(w, kw, f), w, r),
{
    lemma_tags_within(w, r, kw);
}

/// A finish of a colour, read from a line.
proof fn lemma_finish_choice_within(w: Seq<u8>, r: Seq<u8>)
    requires
        is_one_line(w),
        line_end(r),
    ensures
        within_line(spec_finish_choice(w + r), spec_finish_choice(w), w, r),
{
    lemma_colour_words();
    lemma_finish_word_within(w, r, keywords::CHROME@, ColorFinishModel::Chrome);
    lemma_finish_word_within(w, r, keywords::PEARLESCENT@, ColorFinishModel::Pearlescent);
    lemma_finish_word_within(w, r, keywords::RUBBER@, ColorFinishModel::Rubber);
    lemma_finish_word_within(w, r, keywords::MATTE_METALLIC@, ColorFinishModel::MatteMetallic);
    lemma_finish_word_within(w, r, keywords::METAL@, ColorFinishModel::Metal);
    lemma_material_finish_within(w, r);
}

/// The optional finish part of !COLOUR, read from a line.
proof fn lemma_color_finish_within(w: Seq<u8>, r: Seq<u8>)
    requires
        is_one_line(w),
        line_end(r),
    ensures
        within_line(spec_color_finish(w + r), spec_color_finish(w), w, r),
{
    lemma_ends_self(w);
    lemma_spaces_within(w, r);
    if let Outcome::Done(a, _) = spec_sp(w) {
        lemma_ends_one_line(a, w);
        lemma_finish_choice_within(a, r);
        if let Outcome::Done(b, _) = spec_finish_choice(a) {
            lemma_ends_trans(b, a, w);
        }
    }
}

/// The optional parts at the end of !COLOUR, read from a line.
proof fn lemma_colour_tail_within(
    w: Seq<u8>,
    r: Seq<u8>,
    name: Seq<char>,
    code: u32,
    value: Color,
    edge: Color,
)
    requires
        is_one_line(w),
        line_end(r),
    ensures
        within_line(
            spec_colour_tail(w + r, name, code, value, edge),
            spec_colour_tail(w, name, code, value, edge),
            w,
            r,
        ),
{
    lemma_alpha_luminance_within(w, r);
    if let Outcome::Done(a, _) = spec_colour_alpha(w) {
        lemma_ends_one_line(a, w);
        lemma_alpha_luminance_within(a, r);
        if let Outcome::Done(b, _) = spec_colour_luminance(a) {
            lemma_ends_trans(b, a, w);
            lemma_color_finish_within(b, r);
            if let Outcome::Done(c, _) = spec_color_finish(b) {
                lemma_ends_trans(c, b, w);
            }
        }
    }
}

/// Where `w` begins with !COLOUR, the colour's name is followed by a space
/// or a tab on its line.
pub open spec fn colour_name_on_line(w: Seq<u8>) -> bool {
    spec_word_sp(w, keywords::COLOUR@, false) matches Outcome::Done(q, _) ==> span(
        q,
        ByteClass::NotSpace,
    ) < q.len()
}

/// The name of a colour, where it ends on its line.
proof fn lemma_colour_name_within(q: Seq<u8>, r: Seq<u8>)
    requires
        is_one_line(q),
        line_end(r),
        span(q, ByteClass::NotSpace) < q.len(),
    ensures
        within_line(
            as_utf8(q + r, spec_take_not_space(q + r)),
            as_utf8(q, spec_take_not_space(q)),
            q,
            r,
        ),
{
    lemma_span_concat(q, r, ByteClass::NotSpace);
    let n = span(q, ByteClass::NotSpace) as int;
    assert((q + r).skip(n) =~= q.skip(n) + r);
    assert((q + r).take(n) =~= q.take(n));
    lemma_as_utf8_within(q, r, spec_take_not_space(q));
}

/// !COLOUR, read from a line whose colour name ends on it.
#[verifier::rlimit(80)]
proof fn lemma_meta_colour_within(w: Seq<u8>, r: Seq<u8>)
    requires
        is_one_line(w),
        line_end(r),
        colour_name_on_line(w),
    ensures
        within_line(spec_meta_colour(w + r), spec_meta_colour(w), w, r),
{
    lemma_colour_words();
    lemma_word_sp_within(w, r, keywords::COLOUR@, false);
    if let Outcome::Done(a, _) = spec_word_sp(w, keywords::COLOUR@, false) {
        lemma_ends_one_line(a, w);
        lemma_colour_name_within(a, r);
        if let Outcome::Done(b, name) = as_utf8(a, spec_take_not_space(a)) {
            lemma_ends_trans(b, a, w);
            lemma_word_sp_within(b, r, keywords::CODE@, false);
            if let Outcome::Done(c, _) = spec_sp_word_sp(b, keywords::CODE@, false) {
                lemma_ends_trans(c, b, w);
                lemma_color_id_within(c, r);
                if let Outcome::Done(d, code) = spec_color_id(c) {
                    lemma_ends_trans(d, c, w);
                    lemma_word_sp_within(d, r, keywords::VALUE@, false);
                    if let Outcome::Done(e, _) = spec_sp_word_sp(d, keywords::VALUE@, false) {
                        lemma_ends_trans(e, d, w);
                        lemma_hex_color_within(e, r);
                        if let Outcome::Done(f, value) = spec_hex_color(e) {
                            lemma_ends_trans(f, e, w);
                            lemma_word_sp_within(f, r, keywords::EDGE@, false);
                            if let Outcome::Done(g, _) = spec_sp_word_sp(f, keywords::EDGE@, false) {
                                lemma_ends_trans(g, f, w);
                                lemma_hex_color_within(g, r);
                                if let Outcome::Done(h, edge) = spec_hex_color(g) {
                                    lemma_ends_trans(h, g, w);
                                    lemma_colour_tail_within(h, r, name, code, value, edge);
                                    if let Outcome::Done(k, _) = spec_colour_tail(h, name, code, value, edge) {
                                        lemma_ends_trans(k, h, w);
                                    }
                                }
                            }
                        }
                    }
                }
            }
        }
    }
}

proof fn lemma_meta_words()
    ensures
        is_word(keywords::CATEGORY@),
        is_word(keywords::KEYWORDS@),
        is_word(keywords::FILE@),
        is_word(keywords::DATA@),
        is_word(keywords::BASE64_DATA@),
        is_word(keywords::NOFILE@),
{
}

/// A comma, read from a line.
proof fn lemma_single_comma_within(w: Seq<u8>, r: Seq<u8>)
    requires
        is_one_line(w),
        line_end(r),
    ensures
        within_line(spec_single_comma(w + r), spec_single_comma(w), w, r),
{
    if w.len() > 0 {
        assert((w + r)[0] == w[0]);
        assert((w + r).skip(1) =~= w.skip(1) + r);
        assert((w + r).take(1) =~= w.take(1));
    } else {
        assert((w + r)[0] == r[0]);
        assert(w + r =~= r);
    }
}

/// One keyword of a list, read from a line.
proof fn lemma_keyword_within(w: Seq<u8>, r: Seq<u8>)
    requires
        is_one_line(w),
        line_end(r),
    ensures
        within_line(spec_keyword(w + r), spec_keyword(w), w, r),
{
    lemma_spaces_within(w, r);
    lemma_as_utf8_within(w, r, spec_take_not_comma_or_eol(w));
}

/// The keywords after the first, read from a line.
proof fn lemma_more_keywords_within(w: Seq<u8>, r: Seq<u8>, acc: Seq<Seq<char>>)
    requires
        is_one_line(w),
        line_end(r),
    ensures
        within_line(spec_more_keywords(w + r, acc), spec_more_keywords(w, acc), w, r),
    decreases w.len(),
{
    lemma_ends_self(w);
    lemma_single_comma_within(w, r);
    if let Outcome::Done(a, _) = spec_single_comma(w) {
        lemma_ends_one_line(a, w);
        lemma_keyword_within(a, r);
        if let Outcome::Done(b, k) = spec_keyword(a) {
            lemma_ends_trans(b, a, w);
            lemma_more_keywords_within(b, r, acc.push(k));
            if let Outcome::Done(c, _) = spec_more_keywords(b, acc.push(k)) {
                lemma_ends_trans(c, b, w);
            }
        }
    }
}

/// Comments and the meta-commands but !COLOUR, read from a line.
#[verifier::rlimit(60)]
proof fn lemma_meta_within(w: Seq<u8>, r: Seq<u8>)
    requires
        is_one_line(w),
        line_end(r),
    ensures
        within_line(spec_category(w + r), spec_category(w), w, r),
        within_line(spec_keywords(w + r), spec_keywords(w), w, r),
        within_line(spec_meta_file(w + r), spec_meta_file(w), w, r),
        within_line(spec_meta_data(w + r), spec_meta_data(w), w, r),
        within_line(spec_meta_base_64_data(w + r), spec_meta_base_64_data(w), w, r),
        within_line(spec_meta_nofile(w + r), spec_meta_nofile(w), w, r),
        within_line(spec_comment(w + r), spec_comment(w), w, r),
{
    lemma_meta_words();
    lemma_spaces_within(w, r);
    lemma_as_utf8_within(w, r, spec_take_not_cr_or_lf(w));
    lemma_tags_within(w, r, keywords::NOFILE@);
    let kws = seq![keywords::CATEGORY@, keywords::FILE@, keywords::DATA@, keywords::BASE64_DATA@];
    assert forall|i: int| 0 <= i < 4 implies is_word(#[trigger] kws[i]) by {}
    lemma_tag_sp_rest_within(w, r, keywords::CATEGORY@);
    lemma_tag_sp_rest_within(w, r, keywords::FILE@);
    lemma_tag_sp_rest_within(w, r, keywords::DATA@);
    lemma_tag_sp_rest_within(w, r, keywords::BASE64_DATA@);
    lemma_tags_within(w, r, keywords::KEYWORDS@);
    if let Outcome::Done(a, _) = spec_tag(w, keywords::KEYWORDS@) {
        lemma_ends_one_line(a, w);
        lemma_spaces_within(a, r);
        if let Outcome::Done(b, _) = spec_sp(a) {
            lemma_ends_trans(b, a, w);
            lemma_keyword_within(b, r);
            if let Outcome::Done(c, k) = spec_keyword(b) {
                lemma_ends_trans(c, b, w);
                lemma_more_keywords_within(c, r, seq![k]);
                if let Outcome::Done(d, _) = spec_more_keywords(c, seq![k]) {
                    lemma_ends_trans(d, c, w);
                }
            }
            assert(within_line(spec_keywords_list(b + r), spec_keywords_list(b), w, r));
        }
    }
}

/// A keyword, spaces, and the rest of the line as text or Base64 data.
proof fn lemma_tag_sp_rest_within(w: Seq<u8>, r: Seq<u8>, kw: Seq<u8>)
    requires
        is_one_line(w),
        line_end(r),
        is_word(kw),
    ensures
        spec_tag(w, kw) matches Outcome::Done(a, _) ==> (spec_sp(a) matches Outcome::Done(b, _) ==> (
            spec_tag(w + r, kw) == after(spec_tag(w, kw), r) && spec_sp(a + r) == after(spec_sp(a), r)
            && within_line(as_utf8(b + r, spec_take_not_cr_or_lf(b + r)), as_utf8(b, spec_take_not_cr_or_lf(b)), w, r)
            && within_line(as_base64(b + r, spec_take_not_cr_or_lf(b + r)), as_base64(b, spec_take_not_cr_or_lf(b)), w, r))),
        within_line(spec_tag(w + r, kw), spec_tag(w, kw), w, r),
        spec_tag(w, kw) matches Outcome::Done(a, _) ==> within_line(spec_sp(a + r), spec_sp(a), w, r),
{
    lemma_tags_within(w, r, kw);
    if let Outcome::Done(a, _) = spec_tag(w, kw) {
        lemma_ends_one_line(a, w);
        lemma_spaces_within(a, r);
        if let Outcome::Done(b, _) = spec_sp(a) {
            lemma_ends_trans(b, a, w);
            lemma_spaces_within(b, r);
            if let Outcome::Done(c, _) = spec_take_not_cr_or_lf(b) {
                lemma_ends_trans(c, b, w);
            }
            lemma_as_utf8_within(b, r, spec_take_not_cr_or_lf(b));
            lemma_as_base64_within(b, r, spec_take_not_cr_or_lf(b));
        }
    }
}

/// A comment or meta-command, read from a line whose colour name ends on it.
proof fn lemma_meta_cmd_within(w: Seq<u8>, r: Seq<u8>)
    requires
        is_one_line(w),
        line_end(r),
        colour_name_on_line(w),
    ensures
        within_line(spec_meta_cmd(w + r), spec_meta_cmd(w), w, r),
{
    lemma_meta_within(w, r);
    lemma_meta_colour_within(w, r);
}

/// Every colour name on the line `l` ends on it: wherever !COLOUR, spaces
/// and a name stand in it, a space or tab follows the name.
pub open spec fn colour_names_on_line(l: Seq<u8>) -> bool {
    forall|k: int| 0 <= k <= l.len() ==> colour_name_on_line(#[trigger] l.skip(k))
}

/// The command of a line, chosen by its line type, read from the line.
proof fn lemma_command_within(w: Seq<u8>, r: Seq<u8>, line_type: Seq<u8>)
    requires
        is_one_line(w),
        line_end(r),
        colour_name_on_line(w),
    ensures
        within_line(spec_command(w + r, line_type), spec_command(w, line_type), w, r),
{
    if line_type == seq![48u8] {
        lemma_meta_cmd_within(w, r);
    } else if line_type == seq![49u8] {
        lemma_file_ref_within(w, r);
    } else if line_type == seq![50u8] {
        lemma_line_cmd_within(w, r);
    } else if line_type == seq![51u8] {
        lemma_tri_within(w, r);
    } else if line_type == seq![52u8] || line_type == seq![53u8] {
        lemma_quad_within(w, r);
    }
}

/// A line that is not blank: it holds a byte that is none of space, tab,
/// <CR> and <LF>.
pub open spec fn not_blank(w: Seq<u8>) -> bool {
    span(w, ByteClass::SpaceOrEol) < w.len()
}

/// The line type and the spaces after it, read from a line.
proof fn lemma_read_cmd_id_within(w: Seq<u8>, r: Seq<u8>)
    requires
        is_one_line(w),
        line_end(r),
    ensures
        within_line(spec_read_cmd_id_str(w + r), spec_read_cmd_id_str(w), w, r),
{
    assert(!in_class(r[0], ByteClass::Digit));
    lemma_take_while_within(w, r, ByteClass::Digit, ErrorKind::Digit);
    if let Outcome::Done(b, id) = spec_take_while1(w, ByteClass::Digit, ErrorKind::Digit) {
        lemma_ends_one_line(b, w);
        lemma_spaces_within(b, r);
        if let Outcome::Done(c, _) = spec_space0(b) {
            lemma_ends_trans(c, b, w);
        }
    }
}

/// A command read from a line that is not blank never reads past its end.
#[verifier::rlimit(100)]
#[verifier::spinoff_prover]
proof fn lemma_read_line_within(w: Seq<u8>, r: Seq<u8>)
    requires
        is_one_line(w),
        line_end(r),
        not_blank(w),
        colour_names_on_line(w),
    ensures
        within_line(spec_read_line(w + r), spec_read_line(w), w, r),
{
    reveal(spec_read_line);
    lemma_span_concat(w, r, ByteClass::SpaceOrEol);
    lemma_span_bound(w, ByteClass::SpaceOrEol);
    let n = span(w, ByteClass::SpaceOrEol) as int;
    let a = w.skip(n);
    assert((w + r).skip(n) =~= a + r);
    assert((w + r).take(n) =~= w.take(n));
    assert(spec_space_or_eol0(w + r) == Outcome::Done(a + r, w.take(n)));
    assert(w.skip(w.len() - a.len()) =~= a);
    lemma_ends_one_line(a, w);
    lemma_read_cmd_id_within(a, r);
    if let Outcome::Done(c, id) = spec_read_cmd_id_str(a) {
        lemma_ends_trans(c, a, w);
        assert(colour_name_on_line(w.skip(w.len() - c.len())));
        lemma_command_within(c, r, id);
        if let Outcome::Done(d, _) = spec_command(c, id) {
            lemma_ends_trans(d, c, w);
        }
    }
}

/// A line of invalid line type, and not blank, is skipped to its end.
proof fn lemma_ignored_line_within(w: Seq<u8>, r: Seq<u8>)
    requires
        is_one_line(w),
        line_end(r),
        not_blank(w),
    ensures
        spec_ignored_line(w + r) == (if spec_ignored_line(w) is Some {
            Some(r)
        } else {
            None::<Seq<u8>>
        }),
{
    lemma_span_concat(w, r, ByteClass::SpaceOrEol);
    lemma_span_bound(w, ByteClass::SpaceOrEol);
    let n = span(w, ByteClass::SpaceOrEol) as int;
    let a = w.skip(n);
    assert((w + r).skip(n) =~= a + r);
    assert(!in_class(r[0], ByteClass::Digit));
    lemma_span_concat(a, r, ByteClass::Digit);
    lemma_span_bound(a, ByteClass::Digit);
    let m = span(a, ByteClass::Digit) as int;
    assert((a + r).take(m) =~= a.take(m));
    assert(line_type_of(w + r) == line_type_of(w));
    let u = w.skip(n + m);
    assert((w + r).skip(n + m) =~= u + r);
    lemma_skip_one_line(w, n + m);
    assert forall|j: int| 0 <= j < u.len() implies in_class(#[trigger] u[j], ByteClass::NotCrOrLf) by {}
    crate::laws::lemma_span_after(u, r, ByteClass::NotCrOrLf);
    assert(!in_class(r[0], ByteClass::NotCrOrLf));
    assert(span(r, ByteClass::NotCrOrLf) == 0) by {
        assert(r.len() > 0);
    }
    assert((u + r).skip(u.len() as int) =~= r);
}

/// Two parses of lines that read the same commands, or stop on errors of
/// the same kind.
pub open spec fn same_commands(o1: Outcome<Seq<CommandModel>>, o2: Outcome<Seq<CommandModel>>) -> bool {
    match o1 {
        Outcome::Done(_, c1) => o2 matches Outcome::Done(_, c2) && c1 == c2,
        Outcome::Error(_, k1) => o2 matches Outcome::Error(_, k2) && k1 == k2,
        Outcome::Failure(_, k1) => o2 matches Outcome::Failure(_, k2) && k1 == k2,
    }
}

/// Blank bytes before lines do not change what they read.
proof fn lemma_lines_after_blank(ws: Seq<u8>, t: Seq<u8>, acc: Seq<CommandModel>)
    requires
        is_blank(ws),
    ensures
        same_commands(spec_lines(ws + t, acc), spec_lines(t, acc)),
{
    lemma_ignored_line_after_blank(ws, t);
    lemma_read_line_after_blank(ws, t);
    lemma_read_line_progress(t);
}

/// The line `q`, then each of the lines `ls` after an end of line `eol`.
pub open spec fn joined(q: Seq<u8>, ls: Seq<Seq<u8>>, eol: Seq<u8>) -> Seq<u8>
    decreases ls.len(),
{
    if ls.len() == 0 {
        q
    } else {
        q + (eol + joined(ls[0], ls.drop_first(), eol))
    }
}

/// Lines without <CR> and <LF>, whose colour names end on them.
pub open spec fn plain_lines(ls: Seq<Seq<u8>>) -> bool {
    forall|i: int| 0 <= i < ls.len() ==> is_one_line(#[trigger] ls[i]) && colour_names_on_line(ls[i])
}

/// What is left of a line whose colour names end on it.
proof fn lemma_colour_names_rest(q: Seq<u8>, w: Seq<u8>)
    requires
        ends(q, w),
        colour_names_on_line(w),
    ensures
        colour_names_on_line(q),
{
    assert forall|k: int| 0 <= k <= q.len() implies colour_name_on_line(#[trigger] q.skip(k)) by {
        assert(q.skip(k) =~= w.skip(w.len() - q.len() + k));
    }
}

/// Lines read alike after <CR><LF> and after <LF>.
#[verifier::rlimit(60)]
proof fn lemma_lines_either_end(q: Seq<u8>, ls: Seq<Seq<u8>>, acc: Seq<CommandModel>)
    requires
        is_one_line(q),
        colour_names_on_line(q),
        plain_lines(ls),
    ensures
        same_commands(
            spec_lines(joined(q, ls, seq![13u8, 10u8]), acc),
            spec_lines(joined(q, ls, seq![10u8]), acc),
        ),
    decreases ls.len(), q.len(),
{
    let crlf = seq![13u8, 10u8];
    let lf = seq![10u8];
    if ls.len() > 0 {
        let t1 = joined(ls[0], ls.drop_first(), crlf);
        let t2 = joined(ls[0], ls.drop_first(), lf);
        let r1 = crlf + t1;
        let r2 = lf + t2;
        assert(plain_lines(ls.drop_first())) by {
            assert forall|i: int| 0 <= i < ls.drop_first().len() implies is_one_line(#[trigger] ls.drop_first()[i])
                && colour_names_on_line(ls.drop_first()[i]) by {
                assert(ls.drop_first()[i] == ls[i + 1]);
            }
        }
        assert(is_one_line(ls[0]) && colour_names_on_line(ls[0]));
        lemma_lines_either_end(ls[0], ls.drop_first(), acc);
        if not_blank(q) {
            lemma_ignored_line_within(q, r1);
            lemma_ignored_line_within(q, r2);
            if spec_ignored_line(q) is Some {
                lemma_lines_after_blank(crlf, t1, acc);
                lemma_lines_after_blank(lf, t2, acc);
            } else {
                lemma_read_line_within(q, r1);
                lemma_read_line_within(q, r2);
                lemma_read_line_progress(q);
                if let Outcome::Done(q2, c) = spec_read_line(q) {
                    lemma_ends_one_line(q2, q);
                    lemma_colour_names_rest(q2, q);
                    lemma_lines_either_end(q2, ls, acc.push(c));
                    assert(joined(q2, ls, crlf) == q2 + r1);
                    assert(joined(q2, ls, lf) == q2 + r2);
                }
            }
        } else {
            lemma_span_bound(q, ByteClass::SpaceOrEol);
            assert forall|j: int| 0 <= j < q.len() implies in_class(#[trigger] q[j], ByteClass::SpaceOrEol) by {
                crate::bytes::lemma_span_prefix(q, ByteClass::SpaceOrEol, j);
            }
            assert(is_blank(q + crlf));
            assert(is_blank(q + lf));
            assert(q + r1 =~= (q + crlf) + t1);
            assert(q + r2 =~= (q + lf) + t2);
            lemma_lines_after_blank(q + crlf, t1, acc);
            lemma_lines_after_blank(q + lf, t2, acc);
        }
    }
}

/// "...capable of reading files with the standard Unix line termination of
/// <LF>": a file whose lines end with <LF> reads as the same file with
/// <CR><LF>: the same commands, or an error of the same kind (where it
/// stopped differs, as the two files differ in length). The lines hold no
/// <CR> nor <LF>; and wherever a line holds !COLOUR and a name, the name is
/// followed by a space or tab on its line (a name that runs to the end of
/// its line takes the line break into it).
pub proof fn law_unix_and_dos_line_ends(ls: Seq<Seq<u8>>)
    requires
        ls.len() > 0,
        plain_lines(ls),
    ensures
        match (
            spec_parse_raw(joined(ls[0], ls.drop_first(), seq![13u8, 10u8])),
            spec_parse_raw(joined(ls[0], ls.drop_first(), seq![10u8])),
        ) {
            (Ok(c1), Ok(c2)) => c1 == c2,
            (Err((_, k1)), Err((_, k2))) => k1 == k2,
            _ => false,
        },
{
    assert(is_one_line(ls[0]) && colour_names_on_line(ls[0]));
    assert(plain_lines(ls.drop_first())) by {
        assert forall|i: int| 0 <= i < ls.drop_first().len() implies is_one_line(#[trigger] ls.drop_first()[i])
            && colour_names_on_line(ls.drop_first()[i]) by {
            assert(ls.drop_first()[i] == ls[i + 1]);
        }
    }
    lemma_lines_either_end(ls[0], ls.drop_first(), seq![]);
}

} // verus!
