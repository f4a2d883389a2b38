//! The !COLOUR meta-command and its finishes.

use vstd::prelude::*;
use crate::bytes::{
    sp, spec_sp, spec_tag, spec_tag_no_case, spec_take_not_cr_or_lf, spec_take_not_space, tag,
    tag_no_case, take_not_cr_or_lf, take_not_space,
};
use crate::keywords;
use crate::number::{
    color_id, digit1_as_u8, float, hex_color, spec_color_id, spec_digit1_as_u8, spec_float,
    spec_hex_color,
};
use crate::outcome::{either, opt, optional, outcome, step, well_formed, Outcome, PResult, ParseErr};
use crate::text::{as_utf8, trimmed, to_utf8, trim};
use crate::types::{
    Color, ColorFinish, ColorFinishModel, ColourCmd, ColourModel, Command, CommandModel,
    GlitterMaterial, GlitterModel, GrainSize, GrainSizeModel, MaterialFinish,
    MaterialFinishModel, SpeckleMaterial, SpeckleModel,
};

verus! {

/// A keyword (compared with or without case) followed by spaces.
pub open spec fn spec_word_sp(s: Seq<u8>, kw: Seq<u8>, no_case: bool) -> Outcome<Seq<u8>> {
    step(
        if no_case {
            spec_tag_no_case(s, kw)
        } else {
            spec_tag(s, kw)
        },
        |r: Seq<u8>, t: Seq<u8>| spec_sp(r),
    )
}

/// Spaces, then a keyword followed by spaces.
pub open spec fn spec_sp_word_sp(s: Seq<u8>, kw: Seq<u8>, no_case: bool) -> Outcome<Seq<u8>> {
    step(spec_sp(s), |r: Seq<u8>, a: Seq<u8>| spec_word_sp(r, kw, no_case))
}

fn word_sp<'a>(i: &'a [u8], kw: &[u8], no_case: bool) -> (r: PResult<'a, &'a [u8]>)
    ensures
        outcome(r) == spec_word_sp(i@, kw@, no_case),
{
    let (i, _) = if no_case {
        tag_no_case(i, kw)?
    } else {
        tag(i, kw)?
    };
    sp(i)
}

fn sp_word_sp<'a>(i: &'a [u8], kw: &[u8], no_case: bool) -> (r: PResult<'a, &'a [u8]>)
    ensures
        outcome(r) == spec_sp_word_sp(i@, kw@, no_case),
{
    let (i, _) = sp(i)?;
    word_sp(i, kw, no_case)
}

/// " <KEYWORD> <u8>", the form of the ALPHA and LUMINANCE parts.
pub open spec fn spec_tagged_u8(s: Seq<u8>, kw: Seq<u8>) -> Outcome<u8> {
    step(spec_sp_word_sp(s, kw, false), |r: Seq<u8>, a: Seq<u8>| spec_digit1_as_u8(r))
}

fn tagged_u8<'a>(i: &'a [u8], kw: &[u8]) -> (r: PResult<'a, u8>)
    ensures
        outcome(r) == spec_tagged_u8(i@, kw@),
{
    let (i, _) = sp_word_sp(i, kw, false)?;
    digit1_as_u8(i)
}

/// The optional ALPHA part of !COLOUR.
pub open spec fn spec_colour_alpha(s: Seq<u8>) -> Outcome<Option<u8>> {
    optional(s, spec_tagged_u8(s, keywords::ALPHA@))
}

/// The optional LUMINANCE part of !COLOUR.
pub open spec fn spec_colour_luminance(s: Seq<u8>) -> Outcome<Option<u8>> {
    optional(s, spec_tagged_u8(s, keywords::LUMINANCE@))
}

/// ALPHA part of !COLOUR. Never fails: where the part is not there, or not
/// read in whole, nothing is read.
pub fn colour_alpha(i: &[u8]) -> (r: PResult<'_, Option<u8>>)
    ensures
        outcome(r) == spec_colour_alpha(i@),
        r matches Ok((rest, v)) && (v is None ==> rest@ == i@),
{
    opt(i, tagged_u8(i, keywords::ALPHA.as_slice()))
}

/// LUMINANCE part of !COLOUR. Never fails: where the part is not there, or
/// not read in whole, nothing is read.
pub fn colour_luminance(i: &[u8]) -> (r: PResult<'_, Option<u8>>)
    ensures
        outcome(r) == spec_colour_luminance(i@),
        r matches Ok((rest, v)) && (v is None ==> rest@ == i@),
{
    opt(i, tagged_u8(i, keywords::LUMINANCE.as_slice()))
}

/// SIZE <size>
pub open spec fn spec_grain_size(s: Seq<u8>) -> Outcome<GrainSizeModel> {
    step(
        spec_word_sp(s, keywords::SIZE@, false),
        |r1: Seq<u8>, a: Seq<u8>|
            step(spec_float(r1), |r2: Seq<u8>, f: Seq<u8>| Outcome::Done(r2, GrainSizeModel::Size(f))),
    )
}

/// MINSIZE <min> MAXSIZE <max>
pub open spec fn spec_grain_min_max_size(s: Seq<u8>) -> Outcome<GrainSizeModel> {
    step(
        spec_word_sp(s, keywords::MINSIZE@, false),
        |r1: Seq<u8>, a: Seq<u8>|
            step(
                spec_float(r1),
                |r2: Seq<u8>, min: Seq<u8>|
                    step(
                        spec_sp_word_sp(r2, keywords::MAXSIZE@, false),
                        |r3: Seq<u8>, b: Seq<u8>|
                            step(
                                spec_float(r3),
                                |r4: Seq<u8>, max: Seq<u8>| Outcome::Done(r4, GrainSizeModel::MinMaxSize(min, max)),
                            ),
                    ),
            ),
    )
}

/// The grain size of a material: SIZE, or MINSIZE and MAXSIZE.
pub open spec fn spec_material_grain_size(s: Seq<u8>) -> Outcome<GrainSizeModel> {
    either(spec_grain_size(s), spec_grain_min_max_size(s))
}

pub fn grain_size(i: &[u8]) -> (r: PResult<'_, GrainSize>)
    ensures
        outcome(r) == spec_grain_size(i@),
{
    let (i, _) = word_sp(i, keywords::SIZE.as_slice(), false)?;
    let (i, size) = float(i)?;
    Ok((i, GrainSize::Size(size)))
}

pub fn grain_min_max_size(i: &[u8]) -> (r: PResult<'_, GrainSize>)
    ensures
        outcome(r) == spec_grain_min_max_size(i@),
{
    let (i, _) = word_sp(i, keywords::MINSIZE.as_slice(), false)?;
    let (i, min_size) = float(i)?;
    let (i, _) = sp_word_sp(i, keywords::MAXSIZE.as_slice(), false)?;
    let (i, max_size) = float(i)?;
    Ok((i, GrainSize::MinMaxSize((min_size, max_size))))
}

pub fn material_grain_size(i: &[u8]) -> (r: PResult<'_, GrainSize>)
    ensures
        outcome(r) == spec_material_grain_size(i@),
{
    match grain_size(i) {
        Err(ParseErr::Error(_, _)) => grain_min_max_size(i),
        r => r,
    }
}

/// The value and the optional alpha and luminance of a material.
pub open spec fn spec_material_head(s: Seq<u8>, kw: Seq<u8>) -> Outcome<(Color, Option<u8>, Option<u8>)> {
    step(
        spec_word_sp(s, kw, true),
        |r1: Seq<u8>, a: Seq<u8>|
            step(
                spec_word_sp(r1, keywords::VALUE@, true),
                |r2: Seq<u8>, b: Seq<u8>|
                    step(
                        spec_hex_color(r2),
                        |r3: Seq<u8>, value: Color|
                            step(
                                spec_colour_alpha(r3),
                                |r4: Seq<u8>, alpha: Option<u8>|
                                    step(
                                        spec_colour_luminance(r4),
                                        |r5: Seq<u8>, luminance: Option<u8>|
                                            Outcome::Done(r5, (value, alpha, luminance)),
                                    ),
                            ),
                    ),
            ),
    )
}

fn material_head<'a>(i: &'a [u8], kw: &[u8]) -> (r: PResult<'a, (Color, Option<u8>, Option<u8>)>)
    ensures
        outcome(r) == spec_material_head(i@, kw@),
{
    let (i, _) = word_sp(i, kw, true)?;
    let (i, _) = word_sp(i, keywords::VALUE.as_slice(), true)?;
    let (i, value) = hex_color(i)?;
    let (i, alpha) = colour_alpha(i)?;
    let (i, luminance) = colour_luminance(i)?;
    Ok((i, (value, alpha, luminance)))
}

/// GLITTER VALUE v [ALPHA a] [LUMINANCE l] FRACTION f VFRACTION vf (SIZE s | MINSIZE min MAXSIZE max)
pub open spec fn spec_glitter_material(s: Seq<u8>) -> Outcome<ColorFinishModel> {
    step(
        spec_material_head(s, keywords::GLITTER@),
        |r1: Seq<u8>, h: (Color, Option<u8>, Option<u8>)|
            step(
                spec_sp_word_sp(r1, keywords::FRACTION@, true),
                |r2: Seq<u8>, a: Seq<u8>|
                    step(
                        spec_float(r2),
                        |r3: Seq<u8>, surface_fraction: Seq<u8>|
                            step(
                                spec_sp_word_sp(r3, keywords::VFRACTION@, true),
                                |r4: Seq<u8>, b: Seq<u8>|
                                    step(
                                        spec_float(r4),
                                        |r5: Seq<u8>, volume_fraction: Seq<u8>|
                                            step(
                                                spec_sp(r5),
                                                |r6: Seq<u8>, c: Seq<u8>|
                                                    step(
                                                        spec_material_grain_size(r6),
                                                        |r7: Seq<u8>, size: GrainSizeModel|
                                                            Outcome::Done(
                                                                r7,
                                                                ColorFinishModel::Material(
                                                                    MaterialFinishModel::Glitter(
                                                                        GlitterModel {
                                                                            value: h.0,
                                                                            alpha: h.1,
                                                                            luminance: h.2,
                                                                            surface_fraction,
                                                                            volume_fraction,
                                                                            size,
                                                                        },
                                                                    ),
                                                                ),
                                                            ),
                                                    ),
                                            ),
                                    ),
                            ),
                    ),
            ),
    )
}

pub fn glitter_material(i: &[u8]) -> (r: PResult<'_, ColorFinish>)
    ensures
        outcome(r) == spec_glitter_material(i@),
{
    let (i, (value, alpha, luminance)) = material_head(i, keywords::GLITTER.as_slice())?;
    let (i, _) = sp_word_sp(i, keywords::FRACTION.as_slice(), true)?;
    let (i, surface_fraction) = float(i)?;
    let (i, _) = sp_word_sp(i, keywords::VFRACTION.as_slice(), true)?;
    let (i, volume_fraction) = float(i)?;
    let (i, _) = sp(i)?;
    let (i, size) = material_grain_size(i)?;
    Ok(
        (
            i,
            ColorFinish::Material(
                MaterialFinish::Glitter(
                    GlitterMaterial {
                        value,
                        alpha,
                        luminance,
                        surface_fraction,
                        volume_fraction,
                        size,
                    },
                ),
            ),
        ),
    )
}

/// SPECKLE VALUE v [ALPHA a] [LUMINANCE l] FRACTION f (SIZE s | MINSIZE min MAXSIZE max)
pub open spec fn spec_speckle_material(s: Seq<u8>) -> Outcome<ColorFinishModel> {
    step(
        spec_material_head(s, keywords::SPECKLE@),
        |r1: Seq<u8>, h: (Color, Option<u8>, Option<u8>)|
            step(
                spec_sp_word_sp(r1, keywords::FRACTION@, true),
                |r2: Seq<u8>, a: Seq<u8>|
                    step(
                        spec_float(r2),
                        |r3: Seq<u8>, surface_fraction: Seq<u8>|
                            step(
                                spec_sp(r3),
                                |r4: Seq<u8>, c: Seq<u8>|
                                    step(
                                        spec_material_grain_size(r4),
                                        |r5: Seq<u8>, size: GrainSizeModel|
                                            Outcome::Done(
                                                r5,
                                                ColorFinishModel::Material(
                                                    MaterialFinishModel::Speckle(
                                                        SpeckleModel {
                                                            value: h.0,
                                                            alpha: h.1,
                                                            luminance: h.2,
                                                            surface_fraction,
                                                            size,
                                                        },
                                                    ),
                                                ),
                                            ),
                                    ),
                            ),
                    ),
            ),
    )
}

pub fn speckle_material(i: &[u8]) -> (r: PResult<'_, ColorFinish>)
    ensures
        outcome(r) == spec_speckle_material(i@),
{
    let (i, (value, alpha, luminance)) = material_head(i, keywords::SPECKLE.as_slice())?;
    let (i, _) = sp_word_sp(i, keywords::FRACTION.as_slice(), true)?;
    let (i, surface_fraction) = float(i)?;
    let (i, _) = sp(i)?;
    let (i, size) = material_grain_size(i)?;
    Ok(
        (
            i,
            ColorFinish::Material(
                MaterialFinish::Speckle(
                    SpeckleMaterial { value, alpha, luminance, surface_fraction, size },
                ),
            ),
        ),
    )
}

/// Any other MATERIAL: the rest of the line, without surrounding whitespace.
pub open spec fn spec_other_material(s: Seq<u8>) -> Outcome<ColorFinishModel> {
    step(
        as_utf8(s, spec_take_not_cr_or_lf(s)),
        |r: Seq<u8>, c: Seq<char>|
            Outcome::Done(r, ColorFinishModel::Material(MaterialFinishModel::Other(trimmed(c)))),
    )
}

pub fn other_material(i: &[u8]) -> (r: PResult<'_, ColorFinish>)
    ensures
        outcome(r) == spec_other_material(i@),
{
    let (i, content) = to_utf8(i, take_not_cr_or_lf(i))?;
    let finish = trim(content).to_owned();
    Ok((i, ColorFinish::Material(MaterialFinish::Other(finish))))
}

/// MATERIAL, then GLITTER, SPECKLE or any other material.
pub open spec fn spec_material_finish(s: Seq<u8>) -> Outcome<ColorFinishModel> {
    step(
        spec_word_sp(s, keywords::MATERIAL@, true),
        |r: Seq<u8>, a: Seq<u8>|
            either(
                spec_glitter_material(r),
                either(spec_speckle_material(r), spec_other_material(r)),
            ),
    )
}

pub fn material_finish(i: &[u8]) -> (r: PResult<'_, ColorFinish>)
    ensures
        outcome(r) == spec_material_finish(i@),
{
    let (i, _) = word_sp(i, keywords::MATERIAL.as_slice(), true)?;
    match glitter_material(i) {
        Err(ParseErr::Error(_, _)) => {},
        r => return r,
    }
    match speckle_material(i) {
        Err(ParseErr::Error(_, _)) => {},
        r => return r,
    }
    other_material(i)
}

/// A finish keyword, compared without case.
pub open spec fn spec_finish_word(s: Seq<u8>, kw: Seq<u8>, f: ColorFinishModel) -> Outcome<ColorFinishModel> {
    step(spec_tag_no_case(s, kw), |r: Seq<u8>, t: Seq<u8>| Outcome::Done(r, f))
}

/// The finishes, in the order in which they are tried.
pub open spec fn spec_finish_choice(s: Seq<u8>) -> Outcome<ColorFinishModel> {
    either(
        spec_finish_word(s, keywords::CHROME@, ColorFinishModel::Chrome),
        either(
            spec_finish_word(s, keywords::PEARLESCENT@, ColorFinishModel::Pearlescent),
            either(
                spec_finish_word(s, keywords::RUBBER@, ColorFinishModel::Rubber),
                either(
                    spec_finish_word(s, keywords::MATTE_METALLIC@, ColorFinishModel::MatteMetallic),
                    either(
                        spec_finish_word(s, keywords::METAL@, ColorFinishModel::Metal),
                        spec_material_finish(s),
                    ),
                ),
            ),
        ),
    )
}

/// The optional finish part of !COLOUR, after spaces.
pub open spec fn spec_color_finish(s: Seq<u8>) -> Outcome<Option<ColorFinishModel>> {
    optional(s, step(spec_sp(s), |r: Seq<u8>, a: Seq<u8>| spec_finish_choice(r)))
}

fn finish_choice(i: &[u8]) -> (r: PResult<'_, ColorFinish>)
    ensures
        outcome(r) == spec_finish_choice(i@),
{
    if let Ok((rest, _)) = tag_no_case(i, keywords::CHROME.as_slice()) {
        return Ok((rest, ColorFinish::Chrome));
    }
    if let Ok((rest, _)) = tag_no_case(i, keywords::PEARLESCENT.as_slice()) {
        return Ok((rest, ColorFinish::Pearlescent));
    }
    if let Ok((rest, _)) = tag_no_case(i, keywords::RUBBER.as_slice()) {
        return Ok((rest, ColorFinish::Rubber));
    }
    if let Ok((rest, _)) = tag_no_case(i, keywords::MATTE_METALLIC.as_slice()) {
        return Ok((rest, ColorFinish::MatteMetallic));
    }
    if let Ok((rest, _)) = tag_no_case(i, keywords::METAL.as_slice()) {
        return Ok((rest, ColorFinish::Metal));
    }
    material_finish(i)
}

fn spaced_finish(i: &[u8]) -> (r: PResult<'_, ColorFinish>)
    ensures
        outcome(r) == step(spec_sp(i@), |r: Seq<u8>, a: Seq<u8>| spec_finish_choice(r)),
{
    let (i, _) = sp(i)?;
    finish_choice(i)
}

/// Finish part of !COLOUR. Where it is not there, or not read in whole,
/// nothing is read; only a number that stops the whole parse makes it fail.
pub fn color_finish(i: &[u8]) -> (r: PResult<'_, Option<ColorFinish>>)
    ensures
        outcome(r) == spec_color_finish(i@),
{
    opt(i, spaced_finish(i))
}

/// !COLOUR name CODE x VALUE v EDGE e [ALPHA a] [LUMINANCE l] [finish]
pub open spec fn spec_meta_colour(s: Seq<u8>) -> Outcome<CommandModel> {
    step(
        spec_word_sp(s, keywords::COLOUR@, false),
        |r1: Seq<u8>, a: Seq<u8>|
            step(
                as_utf8(r1, spec_take_not_space(r1)),
                |r2: Seq<u8>, name: Seq<char>|
                    step(
                        spec_sp_word_sp(r2, keywords::CODE@, false),
                        |r3: Seq<u8>, b: Seq<u8>|
                            step(
                                spec_color_id(r3),
                                |r4: Seq<u8>, code: u32|
                                    step(
                                        spec_sp_word_sp(r4, keywords::VALUE@, false),
                                        |r5: Seq<u8>, c: Seq<u8>|
                                            step(
                                                spec_hex_color(r5),
                                                |r6: Seq<u8>, value: Color|
                                                    step(
                                                        spec_sp_word_sp(r6, keywords::EDGE@, false),
                                                        |r7: Seq<u8>, d: Seq<u8>|
                                                            step(
                                                                spec_hex_color(r7),
                                                                |r8: Seq<u8>, edge: Color|
                                                                    spec_colour_tail(r8, name, code, value, edge),
                                                            ),
                                                    ),
                                            ),
                                    ),
                            ),
                    ),
            ),
    )
}

/// The optional parts at the end of !COLOUR.
pub open spec fn spec_colour_tail(
    s: Seq<u8>,
    name: Seq<char>,
    code: u32,
    value: Color,
    edge: Color,
) -> Outcome<CommandModel> {
    step(
        spec_colour_alpha(s),
        |r1: Seq<u8>, alpha: Option<u8>|
            step(
                spec_colour_luminance(r1),
                |r2: Seq<u8>, luminance: Option<u8>|
                    step(
                        spec_color_finish(r2),
                        |r3: Seq<u8>, finish: Option<ColorFinishModel>|
                            Outcome::Done(
                                r3,
                                CommandModel::Colour(
                                    ColourModel { name, code, value, edge, alpha, luminance, finish },
                                ),
                            ),
                    ),
            ),
    )
}

/// !COLOUR extension meta-command.
pub fn meta_colour(i: &[u8]) -> (r: PResult<'_, Command>)
    ensures
        outcome(r) == spec_meta_colour(i@),
{
    let (i, _) = word_sp(i, keywords::COLOUR.as_slice(), false)?;
    let (i, name) = to_utf8(i, take_not_space(i))?;
    let (i, _) = sp_word_sp(i, keywords::CODE.as_slice(), false)?;
    let (i, code) = color_id(i)?;
    let (i, _) = sp_word_sp(i, keywords::VALUE.as_slice(), false)?;
    let (i, value) = hex_color(i)?;
    let (i, _) = sp_word_sp(i, keywords::EDGE.as_slice(), false)?;
    let (i, edge) = hex_color(i)?;
    let (i, alpha) = colour_alpha(i)?;
    let (i, luminance) = colour_luminance(i)?;
    let (i, finish) = color_finish(i)?;
    Ok(
        (
            i,
            Command::Colour(
                ColourCmd { name: name.to_owned(), code, value, edge, alpha, luminance, finish },
            ),
        ),
    )
}

pub broadcast proof fn lemma_word_sp_well_formed(s: Seq<u8>, kw: Seq<u8>, no_case: bool)
    ensures
        well_formed(#[trigger] spec_word_sp(s, kw, no_case), s),
{
    broadcast use crate::bytes::group_bytes_well_formed;
}

pub broadcast proof fn lemma_sp_word_sp_well_formed(s: Seq<u8>, kw: Seq<u8>, no_case: bool)
    ensures
        well_formed(#[trigger] spec_sp_word_sp(s, kw, no_case), s),
{
    broadcast use crate::bytes::group_bytes_well_formed, lemma_word_sp_well_formed;
}

pub broadcast proof fn lemma_colour_alpha_well_formed(s: Seq<u8>)
    ensures
        well_formed(#[trigger] spec_colour_alpha(s), s),
{
    broadcast use crate::number::group_number_well_formed, lemma_sp_word_sp_well_formed;
}

pub broadcast proof fn lemma_colour_luminance_well_formed(s: Seq<u8>)
    ensures
        well_formed(#[trigger] spec_colour_luminance(s), s),
{
    broadcast use crate::number::group_number_well_formed, lemma_sp_word_sp_well_formed;
}

pub broadcast proof fn lemma_grain_size_well_formed(s: Seq<u8>)
    ensures
        well_formed(#[trigger] spec_material_grain_size(s), s),
{
    broadcast use crate::bytes::group_bytes_well_formed, crate::number::group_number_well_formed,
        lemma_word_sp_well_formed, lemma_sp_word_sp_well_formed;
}

pub broadcast proof fn lemma_material_head_well_formed(s: Seq<u8>, kw: Seq<u8>)
    ensures
        well_formed(#[trigger] spec_material_head(s, kw), s),
{
    broadcast use crate::number::group_number_well_formed, lemma_word_sp_well_formed, lemma_colour_alpha_well_formed, lemma_colour_luminance_well_formed;
}

pub broadcast proof fn lemma_glitter_material_well_formed(s: Seq<u8>)
    ensures
        well_formed(#[trigger] spec_glitter_material(s), s),
{
    broadcast use crate::bytes::group_bytes_well_formed, crate::number::group_number_well_formed,
        lemma_sp_word_sp_well_formed, lemma_material_head_well_formed, lemma_grain_size_well_formed;
}

pub broadcast proof fn lemma_speckle_material_well_formed(s: Seq<u8>)
    ensures
        well_formed(#[trigger] spec_speckle_material(s), s),
{
    broadcast use crate::bytes::group_bytes_well_formed, crate::number::group_number_well_formed,
        lemma_sp_word_sp_well_formed, lemma_material_head_well_formed, lemma_grain_size_well_formed;
}

pub broadcast proof fn lemma_material_finish_well_formed(s: Seq<u8>)
    ensures
        well_formed(#[trigger] spec_material_finish(s), s),
{
    broadcast use crate::bytes::group_bytes_well_formed, crate::text::group_text_well_formed,
        lemma_word_sp_well_formed, lemma_glitter_material_well_formed, lemma_speckle_material_well_formed;
}

pub broadcast proof fn lemma_color_finish_well_formed(s: Seq<u8>)
    ensures
        well_formed(#[trigger] spec_color_finish(s), s),
{
    broadcast use crate::bytes::group_bytes_well_formed, lemma_material_finish_well_formed;
}

pub broadcast proof fn lemma_meta_colour_well_formed(s: Seq<u8>)
    ensures
        well_formed(#[trigger] spec_meta_colour(s), s),
{
    broadcast use crate::bytes::group_bytes_well_formed, crate::number::group_number_well_formed,
        crate::text::group_text_well_formed, lemma_word_sp_well_formed, lemma_sp_word_sp_well_formed,
        lemma_colour_alpha_well_formed, lemma_colour_luminance_well_formed, lemma_color_finish_well_formed;
}

} // verus!
