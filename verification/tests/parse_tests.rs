use glam::{Vec2, Vec3};
use weldr::bytes::{
    empty_line, end_of_line, read_cmd_id_str, single_comma, space0, space_or_eol0,
    take_not_cr_or_lf,
};
use weldr::colour::{
    color_finish, colour_alpha, colour_luminance, glitter_material, material_grain_size,
    meta_colour, speckle_material,
};
use weldr::geometry::{file_ref_cmd, filename};
use weldr::meta::{category, keywords, keywords_list};
use weldr::number::{color_id, digit1_as_u8, from_hex, hex_color, read_vec3};
use weldr::parse::{meta_cmd, read_line};
use weldr::{
    nom_error, Base64DataCmd, CategoryCmd, Color, CommentCmd, DataCmd, ErrorKind, FileCmd,
    KeywordsCmd, PResult, ParseErr,
};

// The values that the library keeps as text, read as the numbers they stand for.

fn f(t: &weldr::FloatText) -> f32 {
    nom::number::complete::float::<&[u8], nom::error::Error<&[u8]>>(&t.text[..])
        .unwrap()
        .1
}

fn v2(v: &weldr::Vec2) -> Vec2 {
    Vec2::new(f(&v.x), f(&v.y))
}

fn v3(v: &weldr::Vec3) -> Vec3 {
    Vec3::new(f(&v.x), f(&v.y), f(&v.z))
}

#[derive(Debug, PartialEq)]
enum GrainSize {
    Size(f32),
    MinMaxSize((f32, f32)),
}

#[derive(Debug, PartialEq)]
struct GlitterMaterial {
    value: Color,
    alpha: Option<u8>,
    luminance: Option<u8>,
    surface_fraction: f32,
    volume_fraction: f32,
    size: GrainSize,
}

#[derive(Debug, PartialEq)]
struct SpeckleMaterial {
    value: Color,
    alpha: Option<u8>,
    luminance: Option<u8>,
    surface_fraction: f32,
    size: GrainSize,
}

#[derive(Debug, PartialEq)]
enum MaterialFinish {
    Glitter(GlitterMaterial),
    Speckle(SpeckleMaterial),
    Other(String),
}

#[derive(Debug, PartialEq)]
enum ColorFinish {
    Chrome,
    Pearlescent,
    Rubber,
    MatteMetallic,
    Metal,
    Material(MaterialFinish),
}

#[derive(Debug, PartialEq)]
struct ColourCmd {
    name: String,
    code: u32,
    value: Color,
    edge: Color,
    alpha: Option<u8>,
    luminance: Option<u8>,
    finish: Option<ColorFinish>,
}

#[derive(Debug, PartialEq)]
struct SubFileRefCmd {
    color: u32,
    pos: Vec3,
    row0: Vec3,
    row1: Vec3,
    row2: Vec3,
    file: String,
}

#[derive(Debug, PartialEq)]
struct LineCmd {
    color: u32,
    vertices: [Vec3; 2],
}

#[derive(Debug, PartialEq)]
struct TriangleCmd {
    color: u32,
    vertices: [Vec3; 3],
    uvs: Option<[Vec2; 3]>,
}

#[derive(Debug, PartialEq)]
struct QuadCmd {
    color: u32,
    vertices: [Vec3; 4],
    uvs: Option<[Vec2; 4]>,
}

#[derive(Debug, PartialEq)]
struct OptLineCmd {
    color: u32,
    vertices: [Vec3; 2],
    control_points: [Vec3; 2],
}

#[derive(Debug, PartialEq)]
enum Command {
    Category(CategoryCmd),
    Keywords(KeywordsCmd),
    Colour(ColourCmd),
    Comment(CommentCmd),
    File(FileCmd),
    Data(DataCmd),
    Base64Data(Base64DataCmd),
    NoFile,
    SubFileRef(SubFileRefCmd),
    Line(LineCmd),
    Triangle(TriangleCmd),
    Quad(QuadCmd),
    OptLine(OptLineCmd),
}

fn grain(g: weldr::GrainSize) -> GrainSize {
    match g {
        weldr::GrainSize::Size(s) => GrainSize::Size(f(&s)),
        weldr::GrainSize::MinMaxSize((a, b)) => GrainSize::MinMaxSize((f(&a), f(&b))),
    }
}

fn finish(c: weldr::ColorFinish) -> ColorFinish {
    match c {
        weldr::ColorFinish::Chrome => ColorFinish::Chrome,
        weldr::ColorFinish::Pearlescent => ColorFinish::Pearlescent,
        weldr::ColorFinish::Rubber => ColorFinish::Rubber,
        weldr::ColorFinish::MatteMetallic => ColorFinish::MatteMetallic,
        weldr::ColorFinish::Metal => ColorFinish::Metal,
        weldr::ColorFinish::Material(weldr::MaterialFinish::Glitter(g)) => {
            ColorFinish::Material(MaterialFinish::Glitter(GlitterMaterial {
                value: g.value,
                alpha: g.alpha,
                luminance: g.luminance,
                surface_fraction: f(&g.surface_fraction),
                volume_fraction: f(&g.volume_fraction),
                size: grain(g.size),
            }))
        }
        weldr::ColorFinish::Material(weldr::MaterialFinish::Speckle(s)) => {
            ColorFinish::Material(MaterialFinish::Speckle(SpeckleMaterial {
                value: s.value,
                alpha: s.alpha,
                luminance: s.luminance,
                surface_fraction: f(&s.surface_fraction),
                size: grain(s.size),
            }))
        }
        weldr::ColorFinish::Material(weldr::MaterialFinish::Other(o)) => {
            ColorFinish::Material(MaterialFinish::Other(o))
        }
    }
}

fn command(c: weldr::Command) -> Command {
    match c {
        weldr::Command::Category(c) => Command::Category(c),
        weldr::Command::Keywords(k) => Command::Keywords(k),
        weldr::Command::Colour(c) => Command::Colour(ColourCmd {
            name: c.name,
            code: c.code,
            value: c.value,
            edge: c.edge,
            alpha: c.alpha,
            luminance: c.luminance,
            finish: c.finish.map(finish),
        }),
        weldr::Command::Comment(c) => Command::Comment(c),
        weldr::Command::File(c) => Command::File(c),
        weldr::Command::Data(c) => Command::Data(c),
        weldr::Command::Base64Data(c) => Command::Base64Data(c),
        weldr::Command::NoFile => Command::NoFile,
        weldr::Command::SubFileRef(r) => Command::SubFileRef(SubFileRefCmd {
            color: r.color,
            pos: v3(&r.pos),
            row0: v3(&r.row0),
            row1: v3(&r.row1),
            row2: v3(&r.row2),
            file: r.file,
        }),
        weldr::Command::Line(l) => Command::Line(LineCmd {
            color: l.color,
            vertices: [v3(&l.vertices[0]), v3(&l.vertices[1])],
        }),
        weldr::Command::Triangle(t) => Command::Triangle(TriangleCmd {
            color: t.color,
            vertices: [v3(&t.vertices[0]), v3(&t.vertices[1]), v3(&t.vertices[2])],
            uvs: t.uvs.map(|u| [v2(&u[0]), v2(&u[1]), v2(&u[2])]),
        }),
        weldr::Command::Quad(q) => Command::Quad(QuadCmd {
            color: q.color,
            vertices: [
                v3(&q.vertices[0]),
                v3(&q.vertices[1]),
                v3(&q.vertices[2]),
                v3(&q.vertices[3]),
            ],
            uvs: q.uvs.map(|u| [v2(&u[0]), v2(&u[1]), v2(&u[2]), v2(&u[3])]),
        }),
        weldr::Command::OptLine(o) => Command::OptLine(OptLineCmd {
            color: o.color,
            vertices: [v3(&o.vertices[0]), v3(&o.vertices[1])],
            control_points: [v3(&o.control_points[0]), v3(&o.control_points[1])],
        }),
    }
}

fn conv<'a, T, U>(r: PResult<'a, T>, g: impl Fn(T) -> U) -> Result<(&'a [u8], U), ParseErr<'a>> {
    r.map(|(rest, v)| (rest, g(v)))
}

fn cmd(r: PResult<'_, weldr::Command>) -> Result<(&[u8], Command), ParseErr<'_>> {
    conv(r, command)
}

fn fin(r: PResult<'_, weldr::ColorFinish>) -> Result<(&[u8], ColorFinish), ParseErr<'_>> {
    conv(r, finish)
}

#[test]
fn test_color_id() {
    assert_eq!(color_id(b""), Err(nom_error(&b""[..], ErrorKind::Digit)));
    assert_eq!(color_id(b"1"), Ok((&b""[..], 1)));
    assert_eq!(color_id(b"16 "), Ok((&b" "[..], 16)));
}

#[test]
fn test_from_hex() {
    assert_eq!(from_hex(b"0"), Ok(0));
    assert_eq!(from_hex(b"1"), Ok(1));
    assert_eq!(from_hex(b"a"), Ok(10));
    assert_eq!(from_hex(b"F"), Ok(15));
    assert_eq!(from_hex(b"G"), Err(ErrorKind::AlphaNumeric));
    assert_eq!(from_hex(b"10"), Ok(16));
    assert_eq!(from_hex(b"FF"), Ok(255));
    assert_eq!(from_hex(b"1G"), Err(ErrorKind::AlphaNumeric));
    assert_eq!(from_hex(b"100"), Err(ErrorKind::AlphaNumeric));
    assert_eq!(from_hex(b"\xFF"), Err(ErrorKind::AlphaNumeric));
}

#[test]
fn test_hex_color() {
    assert_eq!(hex_color(b""), Err(nom_error(&b""[..], ErrorKind::Tag)));
    assert_eq!(
        hex_color(b"#"),
        Err(nom_error(&b""[..], ErrorKind::TakeWhileMN))
    );
    assert_eq!(
        hex_color(b"#1"),
        Err(nom_error(&b"1"[..], ErrorKind::TakeWhileMN))
    );
    assert_eq!(
        hex_color(b"#12345Z"),
        Err(nom_error(&b"5Z"[..], ErrorKind::TakeWhileMN))
    );
    assert_eq!(
        hex_color(b"#123456"),
        Ok((&b""[..], Color::new(0x12, 0x34, 0x56)))
    );
    assert_eq!(
        hex_color(b"#ABCDEF"),
        Ok((&b""[..], Color::new(0xAB, 0xCD, 0xEF)))
    );
    assert_eq!(
        hex_color(b"#8E5cAf"),
        Ok((&b""[..], Color::new(0x8E, 0x5C, 0xAF)))
    );
    assert_eq!(
        hex_color(b"#123456e"),
        Ok((&b"e"[..], Color::new(0x12, 0x34, 0x56)))
    );
}

#[test]
fn test_colour_alpha() {
    assert_eq!(colour_alpha(b""), Ok((&b""[..], None)));
    assert_eq!(colour_alpha(b" ALPHA 0"), Ok((&b""[..], Some(0))));
    assert_eq!(colour_alpha(b" ALPHA 1"), Ok((&b""[..], Some(1))));
    assert_eq!(colour_alpha(b" ALPHA 128"), Ok((&b""[..], Some(128))));
    assert_eq!(colour_alpha(b" ALPHA 255"), Ok((&b""[..], Some(255))));
    assert_eq!(colour_alpha(b" ALPHA 34 "), Ok((&b" "[..], Some(34))));
    // A partial match is not read: the part is optional.
    assert_eq!(colour_alpha(b" ALPHA"), Ok((&b" ALPHA"[..], None)));
    assert_eq!(colour_alpha(b" ALPHA 256"), Ok((&b" ALPHA 256"[..], None)));
}

#[test]
fn test_colour_luminance() {
    assert_eq!(colour_luminance(b""), Ok((&b""[..], None)));
    assert_eq!(colour_luminance(b" LUMINANCE 0"), Ok((&b""[..], Some(0))));
    assert_eq!(colour_luminance(b" LUMINANCE 1"), Ok((&b""[..], Some(1))));
    assert_eq!(
        colour_luminance(b" LUMINANCE 128"),
        Ok((&b""[..], Some(128)))
    );
    assert_eq!(
        colour_luminance(b" LUMINANCE 255"),
        Ok((&b""[..], Some(255)))
    );
    assert_eq!(
        colour_luminance(b" LUMINANCE 34 "),
        Ok((&b" "[..], Some(34)))
    );
    assert_eq!(
        colour_luminance(b" LUMINANCE"),
        Ok((&b" LUMINANCE"[..], None))
    );
    assert_eq!(
        colour_luminance(b" LUMINANCE 256"),
        Ok((&b" LUMINANCE 256"[..], None))
    );
}

#[test]
fn test_material_grain_size() {
    assert_eq!(
        conv(material_grain_size(b""), grain),
        Err(nom_error(&b""[..], ErrorKind::Tag))
    );
    assert_eq!(
        conv(material_grain_size(b"SIZE"), grain),
        Err(nom_error(&b"SIZE"[..], ErrorKind::Tag))
    );
    assert_eq!(
        conv(material_grain_size(b"SIZE 1"), grain),
        Ok((&b""[..], GrainSize::Size(1.0)))
    );
    assert_eq!(
        conv(material_grain_size(b"SIZE 0.02"), grain),
        Ok((&b""[..], GrainSize::Size(0.02)))
    );
    assert_eq!(
        conv(material_grain_size(b"MINSIZE"), grain),
        Err(nom_error(&b""[..], ErrorKind::Space))
    );
    assert_eq!(
        conv(material_grain_size(b"MINSIZE 0.02"), grain),
        Err(nom_error(&b""[..], ErrorKind::Space))
    );
    assert_eq!(
        conv(material_grain_size(b"MINSIZE 0.02 MAXSIZE 0.04"), grain),
        Ok((&b""[..], GrainSize::MinMaxSize((0.02, 0.04))))
    );
}

#[test]
fn test_glitter_material() {
    assert_eq!(
        fin(glitter_material(b"")),
        Err(nom_error(&b""[..], ErrorKind::Tag))
    );
    assert_eq!(
        fin(glitter_material(b"GLITTER")),
        Err(nom_error(&b""[..], ErrorKind::Space))
    );
    assert_eq!(
        fin(glitter_material(b"GLITTER VALUE #123456 FRACTION 1.0 VFRACTION 0.3 SIZE 1")),
        Ok((
            &b""[..],
            ColorFinish::Material(MaterialFinish::Glitter(GlitterMaterial {
                value: Color::new(0x12, 0x34, 0x56),
                alpha: None,
                luminance: None,
                surface_fraction: 1.0,
                volume_fraction: 0.3,
                size: GrainSize::Size(1.0)
            }))
        ))
    );
    assert_eq!(
        fin(glitter_material(b"GLITTER VALUE #123456 ALPHA 128 FRACTION 1.0 VFRACTION 0.3 SIZE 1")),
        Ok((
            &b""[..],
            ColorFinish::Material(MaterialFinish::Glitter(GlitterMaterial {
                value: Color::new(0x12, 0x34, 0x56),
                alpha: Some(128),
                luminance: None,
                surface_fraction: 1.0,
                volume_fraction: 0.3,
                size: GrainSize::Size(1.0)
            }))
        ))
    );
    assert_eq!(
        fin(glitter_material(
            b"GLITTER VALUE #123456 LUMINANCE 32 FRACTION 1.0 VFRACTION 0.3 SIZE 1"
        )),
        Ok((
            &b""[..],
            ColorFinish::Material(MaterialFinish::Glitter(GlitterMaterial {
                value: Color::new(0x12, 0x34, 0x56),
                alpha: None,
                luminance: Some(32),
                surface_fraction: 1.0,
                volume_fraction: 0.3,
                size: GrainSize::Size(1.0)
            }))
        ))
    );
    assert_eq!(
        fin(glitter_material(
            b"GLITTER VALUE #123456 FRACTION 1.0 VFRACTION 0.3 MINSIZE 0.02 MAXSIZE 0.04"
        )),
        Ok((
            &b""[..],
            ColorFinish::Material(MaterialFinish::Glitter(GlitterMaterial {
                value: Color::new(0x12, 0x34, 0x56),
                alpha: None,
                luminance: None,
                surface_fraction: 1.0,
                volume_fraction: 0.3,
                size: GrainSize::MinMaxSize((0.02, 0.04))
            }))
        ))
    );
}

#[test]
fn test_speckle_material() {
    assert_eq!(
        fin(speckle_material(b"")),
        Err(nom_error(&b""[..], ErrorKind::Tag))
    );
    assert_eq!(
        fin(speckle_material(b"SPECKLE")),
        Err(nom_error(&b""[..], ErrorKind::Space))
    );
    assert_eq!(
        fin(speckle_material(b"SPECKLE VALUE #123456 FRACTION 1.0 SIZE 1")),
        Ok((
            &b""[..],
            ColorFinish::Material(MaterialFinish::Speckle(SpeckleMaterial {
                value: Color::new(0x12, 0x34, 0x56),
                alpha: None,
                luminance: None,
                surface_fraction: 1.0,
                size: GrainSize::Size(1.0)
            }))
        ))
    );
    assert_eq!(
        fin(speckle_material(b"SPECKLE VALUE #123456 ALPHA 128 FRACTION 1.0 SIZE 1")),
        Ok((
            &b""[..],
            ColorFinish::Material(MaterialFinish::Speckle(SpeckleMaterial {
                value: Color::new(0x12, 0x34, 0x56),
                alpha: Some(128),
                luminance: None,
                surface_fraction: 1.0,
                size: GrainSize::Size(1.0)
            }))
        ))
    );
    assert_eq!(
        fin(speckle_material(b"SPECKLE VALUE #123456 LUMINANCE 32 FRACTION 1.0 SIZE 1")),
        Ok((
            &b""[..],
            ColorFinish::Material(MaterialFinish::Speckle(SpeckleMaterial {
                value: Color::new(0x12, 0x34, 0x56),
                alpha: None,
                luminance: Some(32),
                surface_fraction: 1.0,
                size: GrainSize::Size(1.0)
            }))
        ))
    );
    assert_eq!(
        fin(speckle_material(b"SPECKLE VALUE #123456 FRACTION 1.0 MINSIZE 0.02 MAXSIZE 0.04")),
        Ok((
            &b""[..],
            ColorFinish::Material(MaterialFinish::Speckle(SpeckleMaterial {
                value: Color::new(0x12, 0x34, 0x56),
                alpha: None,
                luminance: None,
                surface_fraction: 1.0,
                size: GrainSize::MinMaxSize((0.02, 0.04))
            }))
        ))
    );
}

fn opt_fin(
    r: PResult<'_, Option<weldr::ColorFinish>>,
) -> Result<(&[u8], Option<ColorFinish>), ParseErr<'_>> {
    conv(r, |o| o.map(finish))
}

#[test]
fn test_color_finish() {
    assert_eq!(opt_fin(color_finish(b"")), Ok((&b""[..], None)));
    assert_eq!(opt_fin(color_finish(b"CHROME")), Ok((&b"CHROME"[..], None)));
    assert_eq!(
        opt_fin(color_finish(b" CHROME")),
        Ok((&b""[..], Some(ColorFinish::Chrome)))
    );
    assert_eq!(
        opt_fin(color_finish(b" PEARLESCENT")),
        Ok((&b""[..], Some(ColorFinish::Pearlescent)))
    );
    assert_eq!(
        opt_fin(color_finish(b" RUBBER")),
        Ok((&b""[..], Some(ColorFinish::Rubber)))
    );
    assert_eq!(
        opt_fin(color_finish(b" MATTE_METALLIC")),
        Ok((&b""[..], Some(ColorFinish::MatteMetallic)))
    );
    assert_eq!(
        opt_fin(color_finish(b" METAL")),
        Ok((&b""[..], Some(ColorFinish::Metal)))
    );
    // Anything may follow the keyword.
    assert_eq!(
        opt_fin(color_finish(b" CHROMEas")),
        Ok((&b"as"[..], Some(ColorFinish::Chrome)))
    );
    assert_eq!(
        opt_fin(color_finish(b" MATERIAL custom values")),
        Ok((
            &b""[..],
            Some(ColorFinish::Material(MaterialFinish::Other(
                "custom values".to_string()
            )))
        ))
    );
}

#[test]
fn test_digit1_as_u8() {
    assert_eq!(
        digit1_as_u8(b""),
        Err(nom_error(&b""[..], ErrorKind::Digit))
    );
    assert_eq!(digit1_as_u8(b"0"), Ok((&b""[..], 0u8)));
    assert_eq!(digit1_as_u8(b"1"), Ok((&b""[..], 1u8)));
    assert_eq!(digit1_as_u8(b"255"), Ok((&b""[..], 255u8)));
    assert_eq!(
        digit1_as_u8(b"256"),
        Err(nom_error(&b"256"[..], ErrorKind::MapRes))
    );
    assert_eq!(digit1_as_u8(b"32 "), Ok((&b" "[..], 32u8)));
}

#[test]
fn test_meta_colour() {
    assert_eq!(cmd(meta_colour(b"")), Err(nom_error(&b""[..], ErrorKind::Tag)));
    assert_eq!(
        cmd(meta_colour(b"!COLOUR Black                              CODE   0   VALUE #1B2A34   EDGE #2B4354")),
        Ok((
            &b""[..],
            Command::Colour(ColourCmd {
                name: "Black".to_string(),
                code: 0,
                value: Color::new(0x1B, 0x2A, 0x34),
                edge: Color::new(0x2B, 0x43, 0x54),
                alpha: None,
                luminance: None,
                finish: None
            })
        ))
    );
    assert_eq!(
        cmd(meta_colour(b"!COLOUR Trans_Dark_Blue                    CODE  33   VALUE #0020A0   EDGE #000B38   ALPHA 128")),
        Ok((
            &b""[..],
            Command::Colour(ColourCmd {
                name: "Trans_Dark_Blue".to_string(),
                code: 33,
                value: Color::new(0x00, 0x20, 0xA0),
                edge: Color::new(0x00, 0x0B, 0x38),
                alpha: Some(128),
                luminance: None,
                finish: None
            })
        ))
    );
    assert_eq!(
        cmd(meta_colour(b"!COLOUR Chrome_Antique_Brass               CODE  60   VALUE #645A4C   EDGE #665B4D                               CHROME")),
        Ok((
            &b""[..],
            Command::Colour(ColourCmd {
                name: "Chrome_Antique_Brass".to_string(),
                code: 60,
                value: Color::new(0x64, 0x5A, 0x4C),
                edge: Color::new(0x66, 0x5B, 0x4D),
                alpha: None,
                luminance: None,
                finish: Some(ColorFinish::Chrome)
            })
        ))
    );
    assert_eq!(
        cmd(meta_colour(b"!COLOUR Pearl_Gold                         CODE 297   VALUE #AA7F2E   EDGE #805F23                               PEARLESCENT")),
        Ok((
            &b""[..],
            Command::Colour(ColourCmd {
                name: "Pearl_Gold".to_string(),
                code: 297,
                value: Color::new(0xAA, 0x7F, 0x2E),
                edge: Color::new(0x80, 0x5F, 0x23),
                alpha: None,
                luminance: None,
                finish: Some(ColorFinish::Pearlescent)
            })
        ))
    );
    assert_eq!(
        cmd(meta_colour(b"!COLOUR Metallic_Silver                    CODE  80   VALUE #767676   EDGE #8E8E8E                               METAL")),
        Ok((
            &b""[..],
            Command::Colour(ColourCmd {
                name: "Metallic_Silver".to_string(),
                code: 80,
                value: Color::new(0x76, 0x76, 0x76),
                edge: Color::new(0x8E, 0x8E, 0x8E),
                alpha: None,
                luminance: None,
                finish: Some(ColorFinish::Metal)
            })
        ))
    );
    assert_eq!(
        cmd(meta_colour(b"!COLOUR Glow_In_Dark_White                 CODE 329   VALUE #F5F3D7   EDGE #E0DA85   ALPHA 240   LUMINANCE 15")),
        Ok((
            &b""[..],
            Command::Colour(ColourCmd {
                name: "Glow_In_Dark_White".to_string(),
                code: 329,
                value: Color::new(0xF5, 0xF3, 0xD7),
                edge: Color::new(0xE0, 0xDA, 0x85),
                alpha: Some(240),
                luminance: Some(15),
                finish: None
            })
        ))
    );
    assert_eq!(
        cmd(meta_colour(b"!COLOUR Opal_Trans_Dark_Blue               CODE 10366 VALUE #0020A0   EDGE #000B38   ALPHA 200   LUMINANCE  5    MATERIAL GLITTER VALUE #001D38 FRACTION 0.8 VFRACTION 0.6 MINSIZE 0.02 MAXSIZE 0.1")),
        Ok((
            &b""[..],
            Command::Colour(ColourCmd {
                name: "Opal_Trans_Dark_Blue".to_string(),
                code: 10366,
                value: Color::new(0x00, 0x20, 0xA0),
                edge: Color::new(0x00, 0x0B, 0x38),
                alpha: Some(200),
                luminance: Some(5),
                finish: Some(ColorFinish::Material(MaterialFinish::Glitter(
                    GlitterMaterial {
                        value: Color::new(0x00, 0x1D, 0x38),
                        alpha: None,
                        luminance: None,
                        surface_fraction: 0.8,
                        volume_fraction: 0.6,
                        size: GrainSize::MinMaxSize((0.02, 0.1)),
                    },
                ))),
            })
        ))
    );
    assert_eq!(
        cmd(meta_colour(b"!COLOUR Speckle_Black_Silver               CODE 132   VALUE #000000   EDGE #898788                               MATERIAL SPECKLE VALUE #898788 FRACTION 0.4 MINSIZE 1 MAXSIZE 3")),
        Ok((
            &b""[..],
            Command::Colour(ColourCmd {
                name: "Speckle_Black_Silver".to_string(),
                code: 132,
                value: Color::new(0x00, 0x00, 0x00),
                edge: Color::new(0x89, 0x87, 0x88),
                alpha: None,
                luminance: None,
                finish: Some(ColorFinish::Material(MaterialFinish::Speckle(
                    SpeckleMaterial {
                        value: Color::new(0x89, 0x87, 0x88),
                        alpha: None,
                        luminance: None,
                        surface_fraction: 0.4,
                        size: GrainSize::MinMaxSize((1.0, 3.0)),
                    },
                ))),
            })
        ))
    );
    assert_eq!(
        cmd(meta_colour(b"!COLOUR Rubber_Yellow                      CODE  65   VALUE #FAC80A   EDGE #9A7C03                               RUBBER")),
        Ok((
            &b""[..],
            Command::Colour(ColourCmd {
                name: "Rubber_Yellow".to_string(),
                code: 65,
                value: Color::new(0xFA, 0xC8, 0x0A),
                edge: Color::new(0x9A, 0x7C, 0x03),
                alpha: None,
                luminance: None,
                finish: Some(ColorFinish::Rubber),
            })
        ))
    );
}

#[test]
fn test_vec3() {
    assert_eq!(
        conv(read_vec3(b"0 0 0"), |v| v3(&v)),
        Ok((&b""[..], Vec3::new(0.0, 0.0, 0.0)))
    );
    assert_eq!(
        conv(read_vec3(b"0 0 0 1"), |v| v3(&v)),
        Ok((&b" 1"[..], Vec3::new(0.0, 0.0, 0.0)))
    );
    assert_eq!(
        conv(read_vec3(b"2 5 -7"), |v| v3(&v)),
        Ok((&b""[..], Vec3::new(2.0, 5.0, -7.0)))
    );
    assert_eq!(
        conv(read_vec3(b"2.3 5 -7.4"), |v| v3(&v)),
        Ok((&b""[..], Vec3::new(2.3, 5.0, -7.4)))
    );
}

#[test]
fn test_read_cmd_id_str() {
    assert_eq!(read_cmd_id_str(b"0"), Ok((&b""[..], &b"0"[..])));
    assert_eq!(read_cmd_id_str(b"0 "), Ok((&b""[..], &b"0"[..])));
    assert_eq!(read_cmd_id_str(b"0   "), Ok((&b""[..], &b"0"[..])));
    assert_eq!(read_cmd_id_str(b"0   e"), Ok((&b"e"[..], &b"0"[..])));
    assert_eq!(
        read_cmd_id_str(b"4547    ssd"),
        Ok((&b"ssd"[..], &b"4547"[..]))
    );
}

#[test]
fn test_end_of_line() {
    assert_eq!(end_of_line(b""), Ok((&b""[..], &b""[..])));
    assert_eq!(end_of_line(b"\n"), Ok((&b""[..], &b"\n"[..])));
    assert_eq!(end_of_line(b"\r\n"), Ok((&b""[..], &b"\r\n"[..])));
}

#[test]
fn test_take_not_cr_or_lf() {
    assert_eq!(take_not_cr_or_lf(b""), Ok((&b""[..], &b""[..])));
    assert_eq!(take_not_cr_or_lf(b"\n"), Ok((&b"\n"[..], &b""[..])));
    assert_eq!(take_not_cr_or_lf(b"\r\n"), Ok((&b"\r\n"[..], &b""[..])));
    assert_eq!(take_not_cr_or_lf(b"\n\n\n"), Ok((&b"\n\n\n"[..], &b""[..])));
    assert_eq!(
        take_not_cr_or_lf(b"\r\n\r\n\r\n"),
        Ok((&b"\r\n\r\n\r\n"[..], &b""[..]))
    );
    assert_eq!(take_not_cr_or_lf(b" a \n"), Ok((&b"\n"[..], &b" a "[..])));
    assert_eq!(take_not_cr_or_lf(b"test"), Ok((&b""[..], &b"test"[..])));
}

#[test]
fn test_single_comma() {
    assert_eq!(single_comma(b""), Err(nom_error(&b""[..], ErrorKind::Tag)));
    assert_eq!(single_comma(b","), Ok((&b""[..], &b","[..])));
    assert_eq!(single_comma(b",s"), Ok((&b"s"[..], &b","[..])));
    assert_eq!(
        single_comma(b"w,s"),
        Err(nom_error(&b"w,s"[..], ErrorKind::Tag))
    );
}

#[test]
fn test_keywords_list() {
    assert_eq!(
        keywords_list(b""),
        Err(nom_error(&b""[..], ErrorKind::TakeWhile1))
    );
    assert_eq!(keywords_list(b"a"), Ok((&b""[..], vec!["a"])));
    assert_eq!(keywords_list(b"a,b,c"), Ok((&b""[..], vec!["a", "b", "c"])));
}

#[test]
fn test_filename() {
    assert_eq!(filename(b"asd\\kw/l.ldr"), Ok((&b""[..], "asd\\kw/l.ldr")));
    assert_eq!(filename(b"asdkwl.ldr"), Ok((&b""[..], "asdkwl.ldr")));
    assert_eq!(
        filename(b"asd\\kw/l.ldr\n"),
        Ok((&b"\n"[..], "asd\\kw/l.ldr"))
    );
    assert_eq!(filename(b"asdkwl.ldr\n"), Ok((&b"\n"[..], "asdkwl.ldr")));
    assert_eq!(
        filename(b"asd\\kw/l.ldr\r\n"),
        Ok((&b"\r\n"[..], "asd\\kw/l.ldr"))
    );
    assert_eq!(
        filename(b"asdkwl.ldr\r\n"),
        Ok((&b"\r\n"[..], "asdkwl.ldr"))
    );
    assert_eq!(
        filename(b"  asdkwl.ldr   \r\n"),
        Ok((&b"\r\n"[..], "asdkwl.ldr"))
    );
}

#[test]
fn test_category_cmd() {
    let res = Command::Category(CategoryCmd {
        category: "Figure Accessory".to_string(),
    });
    assert_eq!(cmd(category(b"!CATEGORY Figure Accessory")), Ok((&b""[..], res)));
}

#[test]
fn test_keywords_cmd() {
    let res = Command::Keywords(KeywordsCmd {
        keywords: vec![
            "western".to_string(),
            "wild west".to_string(),
            "spaghetti western".to_string(),
            "horse opera".to_string(),
            "cowboy".to_string(),
        ],
    });
    assert_eq!(
        cmd(keywords(b"!KEYWORDS western, wild west, spaghetti western, horse opera, cowboy")),
        Ok((&b""[..], res))
    );
}

#[test]
fn test_comment_cmd() {
    let comment = b"test of comment, with \"weird\" characters";
    let res = Command::Comment(CommentCmd::new(std::str::from_utf8(comment).unwrap()));
    assert_eq!(cmd(meta_cmd(comment)), Ok((&b""[..], res)));
    // An empty comment is matched too (a "0" line alone, or "0" and spaces).
    assert_eq!(
        cmd(meta_cmd(b"")),
        Ok((&b""[..], Command::Comment(CommentCmd::new(""))))
    );
}

#[test]
fn test_file_ref_cmd() {
    let res = Command::SubFileRef(SubFileRefCmd {
        color: 16,
        pos: Vec3::new(0.0, 0.0, 0.0),
        row0: Vec3::new(1.0, 0.0, 0.0),
        row1: Vec3::new(0.0, 1.0, 0.0),
        row2: Vec3::new(0.0, 0.0, 1.0),
        file: "aaaaaaddd".to_string(),
    });
    assert_eq!(
        cmd(file_ref_cmd(b"16 0 0 0 1 0 0 0 1 0 0 0 1 aaaaaaddd")),
        Ok((&b""[..], res))
    );
}

#[test]
fn test_space0() {
    assert_eq!(space0(b""), Ok((&b""[..], &b""[..])));
    assert_eq!(space0(b" "), Ok((&b""[..], &b" "[..])));
    assert_eq!(space0(b"   "), Ok((&b""[..], &b"   "[..])));
    assert_eq!(space0(b"  a"), Ok((&b"a"[..], &b"  "[..])));
    assert_eq!(space0(b"a  "), Ok((&b"a  "[..], &b""[..])));
}

#[test]
fn test_space_or_eol0() {
    assert_eq!(space_or_eol0(b""), Ok((&b""[..], &b""[..])));
    assert_eq!(space_or_eol0(b" "), Ok((&b""[..], &b" "[..])));
    assert_eq!(space_or_eol0(b"   "), Ok((&b""[..], &b"   "[..])));
    assert_eq!(space_or_eol0(b"  a"), Ok((&b"a"[..], &b"  "[..])));
    assert_eq!(space_or_eol0(b"a  "), Ok((&b"a  "[..], &b""[..])));
    assert_eq!(space_or_eol0(b"\n"), Ok((&b""[..], &b"\n"[..])));
    assert_eq!(space_or_eol0(b"\n\n\n"), Ok((&b""[..], &b"\n\n\n"[..])));
    assert_eq!(space_or_eol0(b"\n\r\n"), Ok((&b""[..], &b"\n\r\n"[..])));
    assert_eq!(
        space_or_eol0(b"\n\r\r\r\n"),
        Ok((&b""[..], &b"\n\r\r\r\n"[..]))
    );
    assert_eq!(space_or_eol0(b"  \n"), Ok((&b""[..], &b"  \n"[..])));
    assert_eq!(space_or_eol0(b"  \n   "), Ok((&b""[..], &b"  \n   "[..])));
    assert_eq!(
        space_or_eol0(b"  \n   \r\n"),
        Ok((&b""[..], &b"  \n   \r\n"[..]))
    );
    assert_eq!(
        space_or_eol0(b"  \n   \r\n "),
        Ok((&b""[..], &b"  \n   \r\n "[..]))
    );
    assert_eq!(space_or_eol0(b"  \nsa"), Ok((&b"sa"[..], &b"  \n"[..])));
    assert_eq!(
        space_or_eol0(b"  \n  \r\nsa"),
        Ok((&b"sa"[..], &b"  \n  \r\n"[..]))
    );
}

#[test]
fn test_empty_line() {
    assert_eq!(empty_line(b""), Ok((&b""[..], &b""[..])));
    assert_eq!(empty_line(b" "), Ok((&b""[..], &b" "[..])));
    assert_eq!(empty_line(b"   "), Ok((&b""[..], &b"   "[..])));
    assert_eq!(
        empty_line(b"  a"),
        Err(nom_error(&b"a"[..], ErrorKind::CrLf))
    );
    assert_eq!(
        empty_line(b"a  "),
        Err(nom_error(&b"a  "[..], ErrorKind::CrLf))
    );
}

#[test]
fn test_read_cmd() {
    let res = Command::Comment(CommentCmd::new("this doesn't matter"));
    assert_eq!(cmd(read_line(b"0 this doesn't matter")), Ok((&b""[..], res)));
}

#[test]
fn test_read_line_cmd() {
    let res = Command::Line(LineCmd {
        color: 16,
        vertices: [Vec3::new(1.0, 1.0, 0.0), Vec3::new(0.9239, 1.0, 0.3827)],
    });
    assert_eq!(
        cmd(read_line(b"2 16 1 1 0 0.9239 1 0.3827")),
        Ok((&b""[..], res))
    );
}

#[test]
fn test_read_tri_cmd() {
    let res = Command::Triangle(TriangleCmd {
        color: 16,
        vertices: [
            Vec3::new(1.0, 1.0, 0.0),
            Vec3::new(0.9239, 1.0, 0.3827),
            Vec3::new(0.9239, 0.0, 0.3827),
        ],
        uvs: None,
    });
    assert_eq!(
        cmd(read_line(b"3 16 1 1 0 0.9239 1 0.3827 0.9239 0 0.3827")),
        Ok((&b""[..], res))
    );
    let res = Command::Triangle(TriangleCmd {
        color: 16,
        vertices: [
            Vec3::new(1.0, 1.0, 0.0),
            Vec3::new(0.9239, 1.0, 0.3827),
            Vec3::new(0.9239, 0.0, 0.3827),
        ],
        uvs: None,
    });
    assert_eq!(
        // Note: extra spaces at end
        cmd(read_line(b"3 16 1 1 0 0.9239 1 0.3827 0.9239 0 0.3827  ")),
        Ok((&b""[..], res))
    );
}

#[test]
fn test_read_quad_cmd() {
    let res = Command::Quad(QuadCmd {
        color: 16,
        vertices: [
            Vec3::new(1.0, 1.0, 0.0),
            Vec3::new(0.9239, 1.0, 0.3827),
            Vec3::new(0.9239, 0.0, 0.3827),
            Vec3::new(1.0, 0.0, 0.0),
        ],
        uvs: None,
    });
    assert_eq!(
        cmd(read_line(b"4 16 1 1 0 0.9239 1 0.3827 0.9239 0 0.3827 1 0 0")),
        Ok((&b""[..], res))
    );
}

#[test]
fn test_read_tri_cmd_uvs() {
    let res = Command::Triangle(TriangleCmd {
        color: 16,
        vertices: [
            Vec3::new(-1.0, 0.0, 1.0),
            Vec3::new(-1.0, 0.0, -1.0),
            Vec3::new(1.0, 0.0, -1.0),
        ],
        uvs: Some([
            Vec2::new(0.0, 1.0),
            Vec2::new(0.0, 0.0),
            Vec2::new(1.0, 0.0),
        ]),
    });
    assert_eq!(
        cmd(read_line(b"3 16 -1 0 1 -1 0 -1 1 0 -1 0 1 0 0 1 0")),
        Ok((&b""[..], res))
    );
}

#[test]
fn test_read_quad_cmd_uvs() {
    let res = Command::Quad(QuadCmd {
        color: 16,
        vertices: [
            Vec3::new(-1.0, 0.0, 1.0),
            Vec3::new(-1.0, 0.0, -1.0),
            Vec3::new(1.0, 0.0, -1.0),
            Vec3::new(1.0, 1.0, -1.0),
        ],
        uvs: Some([
            Vec2::new(0.0, 1.0),
            Vec2::new(0.0, 0.0),
            Vec2::new(1.0, 0.0),
            Vec2::new(1.0, 1.0),
        ]),
    });
    assert_eq!(
        cmd(read_line(b"4 16 -1 0 1 -1 0 -1 1 0 -1 1 1 -1 0 1 0 0 1 0 1 1")),
        Ok((&b""[..], res))
    );
}

#[test]
fn test_read_opt_line_cmd() {
    let res = Command::OptLine(OptLineCmd {
        color: 16,
        vertices: [Vec3::new(1.0, 1.0, 0.0), Vec3::new(0.9239, 1.0, 0.3827)],
        control_points: [Vec3::new(0.9239, 0.0, 0.3827), Vec3::new(1.0, 0.0, 0.0)],
    });
    assert_eq!(
        cmd(read_line(b"5 16 1 1 0 0.9239 1 0.3827 0.9239 0 0.3827 1 0 0")),
        Ok((&b""[..], res))
    );
}

#[test]
fn test_read_line_subfileref() {
    let res = Command::SubFileRef(SubFileRefCmd {
        color: 16,
        pos: Vec3::new(0.0, 0.0, 0.0),
        row0: Vec3::new(1.0, 0.0, 0.0),
        row1: Vec3::new(0.0, 1.0, 0.0),
        row2: Vec3::new(0.0, 0.0, 1.0),
        file: "aa/aaaaddd".to_string(),
    });
    assert_eq!(
        cmd(read_line(b"1 16 0 0 0 1 0 0 0 1 0 0 0 1 aa/aaaaddd")),
        Ok((&b""[..], res))
    );
}

#[test]
fn test_meta_data() {
    let res = Command::Data(DataCmd {
        file: "data.bin".to_string(),
    });
    assert_eq!(cmd(read_line(b"0 !DATA data.bin")), Ok((&b""[..], res)));
}

#[test]
fn test_base64_data() {
    let res = Command::Base64Data(Base64DataCmd {
        data: b"Hello World!".to_vec(),
    });
    assert_eq!(cmd(read_line(b"0 !: SGVsbG8gV29ybGQh")), Ok((&b""[..], res)));
}

#[test]
fn test_file_cmd() {
    let res = Command::File(FileCmd {
        file: "submodel".to_string(),
    });
    assert_eq!(cmd(meta_cmd(b"FILE submodel")), Ok((&b""[..], res)));
}

#[test]
fn test_nofile_cmd() {
    let res = Command::NoFile;
    assert_eq!(cmd(meta_cmd(b"NOFILE")), Ok((&b""[..], res)));
}
