//! Line types 1 to 5: sub-file references, lines, triangles, quadrilaterals
//! and optional lines.

use vstd::prelude::*;
use crate::bytes::{space0, sp, spec_space0, spec_sp, spec_take_not_cr_or_lf, take_not_cr_or_lf};
use crate::number::{color_id, read_vec2, read_vec3, spec_color_id, spec_read_vec2, spec_read_vec3};
use crate::outcome::{opt, optional, outcome, step, well_formed, Model, Outcome, PResult};
use crate::text::{as_utf8, trimmed, to_utf8, trim};
use crate::types::{
    Command, CommandModel, LineCmd, OptLineCmd, QuadCmd, SubFileRefCmd, TriangleCmd, Vec2,
    Vec2Model, Vec3, Vec3Model,
};

verus! {

/// A file name: the rest of the line, without surrounding whitespace.
pub open spec fn spec_filename(s: Seq<u8>) -> Outcome<Seq<char>> {
    step(
        as_utf8(s, spec_take_not_cr_or_lf(s)),
        |r: Seq<u8>, c: Seq<char>| Outcome::Done(r, trimmed(c)),
    )
}

/// Assumes that leading and trailing whitespace isn't part of the file name.
pub fn filename(i: &[u8]) -> (r: PResult<'_, &str>)
    ensures
        outcome(r) == spec_filename(i@),
{
    let (i, name) = to_utf8(i, take_not_cr_or_lf(i))?;
    Ok((i, trim(name)))
}

/// Spaces, then a 3D vector.
pub open spec fn spec_sp_vec3(s: Seq<u8>) -> Outcome<Vec3Model> {
    step(spec_sp(s), |r: Seq<u8>, a: Seq<u8>| spec_read_vec3(r))
}

/// Spaces, then a 2D vector.
pub open spec fn spec_sp_vec2(s: Seq<u8>) -> Outcome<Vec2Model> {
    step(spec_sp(s), |r: Seq<u8>, a: Seq<u8>| spec_read_vec2(r))
}

fn sp_vec3(i: &[u8]) -> (r: PResult<'_, Vec3>)
    ensures
        outcome(r) == spec_sp_vec3(i@),
{
    let (i, _) = sp(i)?;
    read_vec3(i)
}

fn sp_vec2(i: &[u8]) -> (r: PResult<'_, Vec2>)
    ensures
        outcome(r) == spec_sp_vec2(i@),
{
    let (i, _) = sp(i)?;
    read_vec2(i)
}

/// 1 <colour> x y z a b c d e f g h i <file>
pub open spec fn spec_file_ref_cmd(s: Seq<u8>) -> Outcome<CommandModel> {
    step(
        spec_color_id(s),
        |r1: Seq<u8>, color: u32|
            step(
                spec_sp_vec3(r1),
                |r2: Seq<u8>, pos: Vec3Model|
                    step(
                        spec_sp_vec3(r2),
                        |r3: Seq<u8>, row0: Vec3Model|
                            step(
                                spec_sp_vec3(r3),
                                |r4: Seq<u8>, row1: Vec3Model|
                                    step(
                                        spec_sp_vec3(r4),
                                        |r5: Seq<u8>, row2: Vec3Model|
                                            step(
                                                spec_sp(r5),
                                                |r6: Seq<u8>, a: Seq<u8>|
                                                    step(
                                                        spec_filename(r6),
                                                        |r7: Seq<u8>, file: Seq<char>|
                                                            Outcome::Done(
                                                                r7,
                                                                CommandModel::SubFileRef {
                                                                    color,
                                                                    pos,
                                                                    row0,
                                                                    row1,
                                                                    row2,
                                                                    file,
                                                                },
                                                            ),
                                                    ),
                                            ),
                                    ),
                            ),
                    ),
            ),
    )
}

pub fn file_ref_cmd(i: &[u8]) -> (r: PResult<'_, Command>)
    ensures
        outcome(r) == spec_file_ref_cmd(i@),
{
    let (i, color) = color_id(i)?;
    let (i, pos) = sp_vec3(i)?;
    let (i, row0) = sp_vec3(i)?;
    let (i, row1) = sp_vec3(i)?;
    let (i, row2) = sp_vec3(i)?;
    let (i, _) = sp(i)?;
    let (i, file) = filename(i)?;
    Ok((i, Command::SubFileRef(SubFileRefCmd { color, pos, row0, row1, row2, file: file.to_owned() })))
}

/// 2 <colour> x1 y1 z1 x2 y2 z2
pub open spec fn spec_line_cmd(s: Seq<u8>) -> Outcome<CommandModel> {
    step(
        spec_color_id(s),
        |r1: Seq<u8>, color: u32|
            step(
                spec_sp_vec3(r1),
                |r2: Seq<u8>, v1: Vec3Model|
                    step(
                        spec_sp_vec3(r2),
                        |r3: Seq<u8>, v2: Vec3Model|
                            step(
                                spec_space0(r3),
                                |r4: Seq<u8>, a: Seq<u8>|
                                    Outcome::Done(r4, CommandModel::Line { color, vertices: seq![v1, v2] }),
                            ),
                    ),
            ),
    )
}

pub fn line_cmd(i: &[u8]) -> (r: PResult<'_, Command>)
    ensures
        outcome(r) == spec_line_cmd(i@),
{
    let (i, color) = color_id(i)?;
    let (i, v1) = sp_vec3(i)?;
    let (i, v2) = sp_vec3(i)?;
    let (i, _) = space0(i)?;
    let vertices = [v1, v2];
    assert(vertices.model() =~= seq![v1.model(), v2.model()]);
    Ok((i, Command::Line(LineCmd { color, vertices })))
}

/// The texture coordinates of a triangle.
pub open spec fn spec_tri_uvs(s: Seq<u8>) -> Outcome<Seq<Vec2Model>> {
    step(
        spec_read_vec2(s),
        |r1: Seq<u8>, uv1: Vec2Model|
            step(
                spec_sp_vec2(r1),
                |r2: Seq<u8>, uv2: Vec2Model|
                    step(
                        spec_sp_vec2(r2),
                        |r3: Seq<u8>, uv3: Vec2Model|
                            step(spec_space0(r3), |r4: Seq<u8>, a: Seq<u8>| Outcome::Done(r4, seq![uv1, uv2, uv3])),
                    ),
            ),
    )
}

fn tri_uvs(i: &[u8]) -> (r: PResult<'_, [Vec2; 3]>)
    ensures
        outcome(r) == spec_tri_uvs(i@),
{
    let (i, uv1) = read_vec2(i)?;
    let (i, uv2) = sp_vec2(i)?;
    let (i, uv3) = sp_vec2(i)?;
    let (i, _) = space0(i)?;
    let uvs = [uv1, uv2, uv3];
    assert(uvs.model() =~= seq![uv1.model(), uv2.model(), uv3.model()]);
    Ok((i, uvs))
}

/// 3 <colour> x1 y1 z1 x2 y2 z2 x3 y3 z3 [u1 v1 u2 v2 u3 v3]
pub open spec fn spec_tri_cmd(s: Seq<u8>) -> Outcome<CommandModel> {
    step(
        spec_color_id(s),
        |r1: Seq<u8>, color: u32|
            step(
                spec_sp_vec3(r1),
                |r2: Seq<u8>, v1: Vec3Model|
                    step(
                        spec_sp_vec3(r2),
                        |r3: Seq<u8>, v2: Vec3Model|
                            step(
                                spec_sp_vec3(r3),
                                |r4: Seq<u8>, v3: Vec3Model|
                                    step(
                                        spec_space0(r4),
                                        |r5: Seq<u8>, a: Seq<u8>|
                                            step(
                                                optional(r5, spec_tri_uvs(r5)),
                                                |r6: Seq<u8>, uvs: Option<Seq<Vec2Model>>|
                                                    Outcome::Done(
                                                        r6,
                                                        CommandModel::Triangle {
                                                            color,
                                                            vertices: seq![v1, v2, v3],
                                                            uvs,
                                                        },
                                                    ),
                                            ),
                                    ),
                            ),
                    ),
            ),
    )
}

pub fn tri_cmd(i: &[u8]) -> (r: PResult<'_, Command>)
    ensures
        outcome(r) == spec_tri_cmd(i@),
{
    let (i, color) = color_id(i)?;
    let (i, v1) = sp_vec3(i)?;
    let (i, v2) = sp_vec3(i)?;
    let (i, v3) = sp_vec3(i)?;
    let (i, _) = space0(i)?;
    let (i, uvs) = opt(i, tri_uvs(i))?;
    let vertices = [v1, v2, v3];
    assert(vertices.model() =~= seq![v1.model(), v2.model(), v3.model()]);
    Ok((i, Command::Triangle(TriangleCmd { color, vertices, uvs })))
}

/// The texture coordinates of a quadrilateral.
pub open spec fn spec_quad_uvs(s: Seq<u8>) -> Outcome<Seq<Vec2Model>> {
    step(
        spec_read_vec2(s),
        |r1: Seq<u8>, uv1: Vec2Model|
            step(
                spec_sp_vec2(r1),
                |r2: Seq<u8>, uv2: Vec2Model|
                    step(
                        spec_sp_vec2(r2),
                        |r3: Seq<u8>, uv3: Vec2Model|
                            step(
                                spec_space0(r3),
                                |r4: Seq<u8>, a: Seq<u8>|
                                    step(
                                        spec_read_vec2(r4),
                                        |r5: Seq<u8>, uv4: Vec2Model|
                                            step(
                                                spec_space0(r5),
                                                |r6: Seq<u8>, b: Seq<u8>|
                                                    Outcome::Done(r6, seq![uv1, uv2, uv3, uv4]),
                                            ),
                                    ),
                            ),
                    ),
            ),
    )
}

fn quad_uvs(i: &[u8]) -> (r: PResult<'_, [Vec2; 4]>)
    ensures
        outcome(r) == spec_quad_uvs(i@),
{
    let (i, uv1) = read_vec2(i)?;
    let (i, uv2) = sp_vec2(i)?;
    let (i, uv3) = sp_vec2(i)?;
    let (i, _) = space0(i)?;
    let (i, uv4) = read_vec2(i)?;
    let (i, _) = space0(i)?;
    let uvs = [uv1, uv2, uv3, uv4];
    assert(uvs.model() =~= seq![uv1.model(), uv2.model(), uv3.model(), uv4.model()]);
    Ok((i, uvs))
}

/// The four vertices of a quadrilateral or of an optional line.
pub open spec fn spec_four_vertices(s: Seq<u8>) -> Outcome<Seq<Vec3Model>> {
    step(
        spec_sp_vec3(s),
        |r1: Seq<u8>, v1: Vec3Model|
            step(
                spec_sp_vec3(r1),
                |r2: Seq<u8>, v2: Vec3Model|
                    step(
                        spec_sp_vec3(r2),
                        |r3: Seq<u8>, v3: Vec3Model|
                            step(
                                spec_sp_vec3(r3),
                                |r4: Seq<u8>, v4: Vec3Model|
                                    step(
                                        spec_space0(r4),
                                        |r5: Seq<u8>, a: Seq<u8>| Outcome::Done(r5, seq![v1, v2, v3, v4]),
                                    ),
                            ),
                    ),
            ),
    )
}

impl Model for (Vec3, Vec3, Vec3, Vec3) {
    type M = Seq<Vec3Model>;

    open spec fn model(&self) -> Seq<Vec3Model> {
        seq![self.0.model(), self.1.model(), self.2.model(), self.3.model()]
    }
}

fn four_vertices(i: &[u8]) -> (r: PResult<'_, (Vec3, Vec3, Vec3, Vec3)>)
    ensures
        outcome(r) == spec_four_vertices(i@),
{
    let (i, v1) = sp_vec3(i)?;
    let (i, v2) = sp_vec3(i)?;
    let (i, v3) = sp_vec3(i)?;
    let (i, v4) = sp_vec3(i)?;
    let (i, _) = space0(i)?;
    Ok((i, (v1, v2, v3, v4)))
}

/// 4 <colour> x1 y1 z1 x2 y2 z2 x3 y3 z3 x4 y4 z4 [u1 v1 u2 v2 u3 v3 u4 v4]
pub open spec fn spec_quad_cmd(s: Seq<u8>) -> Outcome<CommandModel> {
    step(
        spec_color_id(s),
        |r1: Seq<u8>, color: u32|
            step(
                spec_four_vertices(r1),
                |r2: Seq<u8>, vertices: Seq<Vec3Model>|
                    step(
                        optional(r2, spec_quad_uvs(r2)),
                        |r3: Seq<u8>, uvs: Option<Seq<Vec2Model>>|
                            Outcome::Done(r3, CommandModel::Quad { color, vertices, uvs }),
                    ),
            ),
    )
}

pub fn quad_cmd(i: &[u8]) -> (r: PResult<'_, Command>)
    ensures
        outcome(r) == spec_quad_cmd(i@),
{
    let (i, color) = color_id(i)?;
    let (i, (v1, v2, v3, v4)) = four_vertices(i)?;
    let (i, uvs) = opt(i, quad_uvs(i))?;
    let vertices = [v1, v2, v3, v4];
    assert(vertices.model() =~= seq![v1.model(), v2.model(), v3.model(), v4.model()]);
    Ok((i, Command::Quad(QuadCmd { color, vertices, uvs })))
}

/// 5 <colour> x1 y1 z1 x2 y2 z2 x3 y3 z3 x4 y4 z4: a line and its two control points.
pub open spec fn spec_opt_line_cmd(s: Seq<u8>) -> Outcome<CommandModel> {
    step(
        spec_color_id(s),
        |r1: Seq<u8>, color: u32|
            step(
                spec_four_vertices(r1),
                |r2: Seq<u8>, v: Seq<Vec3Model>|
                    Outcome::Done(
                        r2,
                        CommandModel::OptLine {
                            color,
                            vertices: seq![v[0], v[1]],
                            control_points: seq![v[2], v[3]],
                        },
                    ),
            ),
    )
}

pub fn opt_line_cmd(i: &[u8]) -> (r: PResult<'_, Command>)
    ensures
        outcome(r) == spec_opt_line_cmd(i@),
{
    let (i, color) = color_id(i)?;
    let (i, (v1, v2, v3, v4)) = four_vertices(i)?;
    let vertices = [v1, v2];
    let control_points = [v3, v4];
    assert(vertices.model() =~= seq![v1.model(), v2.model()]);
    assert(control_points.model() =~= seq![v3.model(), v4.model()]);
    Ok((i, Command::OptLine(OptLineCmd { color, vertices, control_points })))
}

pub broadcast proof fn lemma_sp_vec3_well_formed(s: Seq<u8>)
    ensures
        well_formed(#[trigger] spec_sp_vec3(s), s),
{
    broadcast use crate::bytes::group_bytes_well_formed, crate::number::group_number_well_formed;
}

pub broadcast proof fn lemma_sp_vec2_well_formed(s: Seq<u8>)
    ensures
        well_formed(#[trigger] spec_sp_vec2(s), s),
{
    broadcast use crate::bytes::group_bytes_well_formed, crate::number::group_number_well_formed;
}

pub broadcast proof fn lemma_file_ref_cmd_well_formed(s: Seq<u8>)
    ensures
        well_formed(#[trigger] spec_file_ref_cmd(s), s),
{
    broadcast use crate::bytes::group_bytes_well_formed, crate::number::group_number_well_formed,
        crate::text::group_text_well_formed, lemma_sp_vec3_well_formed, lemma_sp_vec2_well_formed;
}

pub broadcast proof fn lemma_line_cmd_well_formed(s: Seq<u8>)
    ensures
        well_formed(#[trigger] spec_line_cmd(s), s),
{
    broadcast use crate::bytes::group_bytes_well_formed, crate::number::group_number_well_formed, lemma_sp_vec3_well_formed, lemma_sp_vec2_well_formed;
}

pub broadcast proof fn lemma_tri_cmd_well_formed(s: Seq<u8>)
    ensures
        well_formed(#[trigger] spec_tri_cmd(s), s),
{
    broadcast use crate::bytes::group_bytes_well_formed, crate::number::group_number_well_formed, lemma_sp_vec3_well_formed, lemma_sp_vec2_well_formed;
}

pub broadcast proof fn lemma_four_vertices_well_formed(s: Seq<u8>)
    ensures
        well_formed(#[trigger] spec_four_vertices(s), s),
{
    broadcast use crate::bytes::group_bytes_well_formed, lemma_sp_vec3_well_formed, lemma_sp_vec2_well_formed;
}

pub broadcast proof fn lemma_quad_cmd_well_formed(s: Seq<u8>)
    ensures
        well_formed(#[trigger] spec_quad_cmd(s), s),
{
    broadcast use crate::bytes::group_bytes_well_formed, crate::number::group_number_well_formed,
        lemma_sp_vec3_well_formed, lemma_sp_vec2_well_formed, lemma_four_vertices_well_formed;
}

pub broadcast proof fn lemma_opt_line_cmd_well_formed(s: Seq<u8>)
    ensures
        well_formed(#[trigger] spec_opt_line_cmd(s), s),
{
    broadcast use crate::number::group_number_well_formed, lemma_four_vertices_well_formed;
}

pub broadcast group group_geometry_well_formed {
    lemma_file_ref_cmd_well_formed,
    lemma_line_cmd_well_formed,
    lemma_tri_cmd_well_formed,
    lemma_quad_cmd_well_formed,
    lemma_opt_line_cmd_well_formed,
}

} // verus!
