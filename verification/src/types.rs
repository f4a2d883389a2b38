//! The commands of an LDraw file, and the mathematical values they stand for.
//!
//! A number is kept as the text that was read for it: the library reads the
//! grammar of the file, and what a number's text means as a floating-point
//! value is left to the program that uses it.

use vstd::prelude::*;
use crate::outcome::Model;

verus! {

impl Model for String {
    type M = Seq<char>;

    open spec fn model(&self) -> Seq<char> {
        self@
    }
}

impl Model for Vec<u8> {
    type M = Seq<u8>;

    open spec fn model(&self) -> Seq<u8> {
        self@
    }
}

impl Model for Vec<String> {
    type M = Seq<Seq<char>>;

    open spec fn model(&self) -> Seq<Seq<char>> {
        self@.map_values(|s: String| s@)
    }
}

impl<'a> Model for Vec<&'a str> {
    type M = Seq<Seq<char>>;

    open spec fn model(&self) -> Seq<Seq<char>> {
        self@.map_values(|s: &str| s@)
    }
}

impl<'a> Model for &'a str {
    type M = Seq<char>;

    open spec fn model(&self) -> Seq<char> {
        self@
    }
}

impl<T: Model, const N: usize> Model for [T; N] {
    type M = Seq<T::M>;

    open spec fn model(&self) -> Seq<T::M> {
        Seq::new(N as nat, |i: int| self@[i].model())
    }
}

/// An RGB colour.
#[derive(Clone, Copy, Debug, PartialEq, Eq, Structural)]
pub struct Color {
    pub red: u8,
    pub green: u8,
    pub blue: u8,
}

impl Color {
    pub fn new(red: u8, green: u8, blue: u8) -> (c: Color)
        ensures
            c == (Color { red, green, blue }),
    {
        Color { red, green, blue }
    }
}

impl Model for Color {
    type M = Color;

    open spec fn model(&self) -> Color {
        *self
    }
}

impl Model for (Color, Option<u8>, Option<u8>) {
    type M = (Color, Option<u8>, Option<u8>);

    open spec fn model(&self) -> (Color, Option<u8>, Option<u8>) {
        *self
    }
}

/// The text of a number, as it stands in the file.
#[derive(Debug, PartialEq, Eq)]
pub struct FloatText {
    pub text: Vec<u8>,
}

impl Model for FloatText {
    type M = Seq<u8>;

    open spec fn model(&self) -> Seq<u8> {
        self.text@
    }
}

/// A 2D vector (texture coordinates).
#[derive(Debug, PartialEq, Eq)]
pub struct Vec2 {
    pub x: FloatText,
    pub y: FloatText,
}

pub struct Vec2Model {
    pub x: Seq<u8>,
    pub y: Seq<u8>,
}

impl Model for Vec2 {
    type M = Vec2Model;

    open spec fn model(&self) -> Vec2Model {
        Vec2Model { x: self.x.model(), y: self.y.model() }
    }
}

/// A 3D vector (position or matrix row).
#[derive(Debug, PartialEq, Eq)]
pub struct Vec3 {
    pub x: FloatText,
    pub y: FloatText,
    pub z: FloatText,
}

pub struct Vec3Model {
    pub x: Seq<u8>,
    pub y: Seq<u8>,
    pub z: Seq<u8>,
}

impl Model for Vec3 {
    type M = Vec3Model;

    open spec fn model(&self) -> Vec3Model {
        Vec3Model { x: self.x.model(), y: self.y.model(), z: self.z.model() }
    }
}

/// The size of the grains of a glitter or speckle material.
#[derive(Debug, PartialEq, Eq)]
pub enum GrainSize {
    Size(FloatText),
    MinMaxSize((FloatText, FloatText)),
}

pub enum GrainSizeModel {
    Size(Seq<u8>),
    MinMaxSize(Seq<u8>, Seq<u8>),
}

impl Model for GrainSize {
    type M = GrainSizeModel;

    open spec fn model(&self) -> GrainSizeModel {
        match self {
            GrainSize::Size(s) => GrainSizeModel::Size(s.model()),
            GrainSize::MinMaxSize((a, b)) => GrainSizeModel::MinMaxSize(a.model(), b.model()),
        }
    }
}

/// The GLITTER material of a !COLOUR command.
#[derive(Debug, PartialEq, Eq)]
pub struct GlitterMaterial {
    pub value: Color,
    pub alpha: Option<u8>,
    pub luminance: Option<u8>,
    pub surface_fraction: FloatText,
    pub volume_fraction: FloatText,
    pub size: GrainSize,
}

pub struct GlitterModel {
    pub value: Color,
    pub alpha: Option<u8>,
    pub luminance: Option<u8>,
    pub surface_fraction: Seq<u8>,
    pub volume_fraction: Seq<u8>,
    pub size: GrainSizeModel,
}

impl Model for GlitterMaterial {
    type M = GlitterModel;

    open spec fn model(&self) -> GlitterModel {
        GlitterModel {
            value: self.value,
            alpha: self.alpha,
            luminance: self.luminance,
            surface_fraction: self.surface_fraction.model(),
            volume_fraction: self.volume_fraction.model(),
            size: self.size.model(),
        }
    }
}

/// The SPECKLE material of a !COLOUR command.
#[derive(Debug, PartialEq, Eq)]
pub struct SpeckleMaterial {
    pub value: Color,
    pub alpha: Option<u8>,
    pub luminance: Option<u8>,
    pub surface_fraction: FloatText,
    pub size: GrainSize,
}

pub struct SpeckleModel {
    pub value: Color,
    pub alpha: Option<u8>,
    pub luminance: Option<u8>,
    pub surface_fraction: Seq<u8>,
    pub size: GrainSizeModel,
}

impl Model for SpeckleMaterial {
    type M = SpeckleModel;

    open spec fn model(&self) -> SpeckleModel {
        SpeckleModel {
            value: self.value,
            alpha: self.alpha,
            luminance: self.luminance,
            surface_fraction: self.surface_fraction.model(),
            size: self.size.model(),
        }
    }
}

/// The MATERIAL finish of a !COLOUR command.
#[derive(Debug, PartialEq, Eq)]
pub enum MaterialFinish {
    Glitter(GlitterMaterial),
    Speckle(SpeckleMaterial),
    Other(String),
}

pub enum MaterialFinishModel {
    Glitter(GlitterModel),
    Speckle(SpeckleModel),
    Other(Seq<char>),
}

impl Model for MaterialFinish {
    type M = MaterialFinishModel;

    open spec fn model(&self) -> MaterialFinishModel {
        match self {
            MaterialFinish::Glitter(g) => MaterialFinishModel::Glitter(g.model()),
            MaterialFinish::Speckle(s) => MaterialFinishModel::Speckle(s.model()),
            MaterialFinish::Other(o) => MaterialFinishModel::Other(o@),
        }
    }
}

/// The finish of a !COLOUR command.
#[derive(Debug, PartialEq, Eq)]
pub enum ColorFinish {
    Chrome,
    Pearlescent,
    Rubber,
    MatteMetallic,
    Metal,
    Material(MaterialFinish),
}

pub enum ColorFinishModel {
    Chrome,
    Pearlescent,
    Rubber,
    MatteMetallic,
    Metal,
    Material(MaterialFinishModel),
}

impl Model for ColorFinish {
    type M = ColorFinishModel;

    open spec fn model(&self) -> ColorFinishModel {
        match self {
            ColorFinish::Chrome => ColorFinishModel::Chrome,
            ColorFinish::Pearlescent => ColorFinishModel::Pearlescent,
            ColorFinish::Rubber => ColorFinishModel::Rubber,
            ColorFinish::MatteMetallic => ColorFinishModel::MatteMetallic,
            ColorFinish::Metal => ColorFinishModel::Metal,
            ColorFinish::Material(m) => ColorFinishModel::Material(m.model()),
        }
    }
}

/// [Line Type 0] !CATEGORY meta-command.
#[derive(Debug, PartialEq, Eq)]
pub struct CategoryCmd {
    pub category: String,
}

/// [Line Type 0] !KEYWORDS meta-command.
#[derive(Debug, PartialEq, Eq)]
pub struct KeywordsCmd {
    pub keywords: Vec<String>,
}

/// [Line Type 0] !COLOUR meta-command.
#[derive(Debug, PartialEq, Eq)]
pub struct ColourCmd {
    pub name: String,
    pub code: u32,
    pub value: Color,
    pub edge: Color,
    pub alpha: Option<u8>,
    pub luminance: Option<u8>,
    pub finish: Option<ColorFinish>,
}

pub struct ColourModel {
    pub name: Seq<char>,
    pub code: u32,
    pub value: Color,
    pub edge: Color,
    pub alpha: Option<u8>,
    pub luminance: Option<u8>,
    pub finish: Option<ColorFinishModel>,
}

impl Model for ColourCmd {
    type M = ColourModel;

    open spec fn model(&self) -> ColourModel {
        ColourModel {
            name: self.name@,
            code: self.code,
            value: self.value,
            edge: self.edge,
            alpha: self.alpha,
            luminance: self.luminance,
            finish: self.finish.model(),
        }
    }
}

/// [Line Type 0] Comment, or unknown meta-command.
#[derive(Debug, PartialEq, Eq)]
pub struct CommentCmd {
    pub text: String,
}

impl CommentCmd {
    pub fn new(text: &str) -> (c: CommentCmd)
        ensures
            c.text@ == text@,
    {
        CommentCmd { text: text.to_owned() }
    }
}

/// [Line Type 0] FILE meta-command: the start of a file in a multi-part document.
#[derive(Debug, PartialEq, Eq)]
pub struct FileCmd {
    pub file: String,
}

/// [Line Type 0] !DATA meta-command: the start of an embedded data file.
#[derive(Debug, PartialEq, Eq)]
pub struct DataCmd {
    pub file: String,
}

/// [Line Type 0] !: meta-command: a line of Base64-encoded data.
#[derive(Debug, PartialEq, Eq)]
pub struct Base64DataCmd {
    pub data: Vec<u8>,
}

/// [Line Type 1] A reference to a sub-file.
#[derive(Debug, PartialEq, Eq)]
pub struct SubFileRefCmd {
    pub color: u32,
    pub pos: Vec3,
    pub row0: Vec3,
    pub row1: Vec3,
    pub row2: Vec3,
    pub file: String,
}

/// [Line Type 2] A segment.
#[derive(Debug, PartialEq, Eq)]
pub struct LineCmd {
    pub color: u32,
    pub vertices: [Vec3; 2],
}

/// [Line Type 3] A triangle, with optional texture coordinates.
#[derive(Debug, PartialEq, Eq)]
pub struct TriangleCmd {
    pub color: u32,
    pub vertices: [Vec3; 3],
    pub uvs: Option<[Vec2; 3]>,
}

/// [Line Type 4] A quadrilateral, with optional texture coordinates.
#[derive(Debug, PartialEq, Eq)]
pub struct QuadCmd {
    pub color: u32,
    pub vertices: [Vec3; 4],
    pub uvs: Option<[Vec2; 4]>,
}

/// [Line Type 5] An optional line, with its two control points.
#[derive(Debug, PartialEq, Eq)]
pub struct OptLineCmd {
    pub color: u32,
    pub vertices: [Vec3; 2],
    pub control_points: [Vec3; 2],
}

/// One line of an LDraw file.
#[derive(Debug, PartialEq, Eq)]
pub enum Command {
    Category(CategoryCmd),
    Keywords(KeywordsCmd),
    Colour(ColourCmd),
    Comment(CommentCmd),
    File(FileCmd),
    Data(DataCmd),
    Base64Data(Base64DataCmd),
    NoFile,
    SubFileRef(SubFileRefCmd),
    Line(LineCmd),
    Triangle(TriangleCmd),
    Quad(QuadCmd),
    OptLine(OptLineCmd),
}

pub enum CommandModel {
    Category(Seq<char>),
    Keywords(Seq<Seq<char>>),
    Colour(ColourModel),
    Comment(Seq<char>),
    File(Seq<char>),
    Data(Seq<char>),
    Base64Data(Seq<u8>),
    NoFile,
    SubFileRef {
        color: u32,
        pos: Vec3Model,
        row0: Vec3Model,
        row1: Vec3Model,
        row2: Vec3Model,
        file: Seq<char>,
    },
    Line { color: u32, vertices: Seq<Vec3Model> },
    Triangle { color: u32, vertices: Seq<Vec3Model>, uvs: Option<Seq<Vec2Model>> },
    Quad { color: u32, vertices: Seq<Vec3Model>, uvs: Option<Seq<Vec2Model>> },
    OptLine { color: u32, vertices: Seq<Vec3Model>, control_points: Seq<Vec3Model> },
}

impl Model for Command {
    type M = CommandModel;

    open spec fn model(&self) -> CommandModel {
        match self {
            Command::Category(c) => CommandModel::Category(c.category@),
            Command::Keywords(k) => CommandModel::Keywords(k.keywords.model()),
            Command::Colour(c) => CommandModel::Colour(c.model()),
            Command::Comment(c) => CommandModel::Comment(c.text@),
            Command::File(f) => CommandModel::File(f.file@),
            Command::Data(d) => CommandModel::Data(d.file@),
            Command::Base64Data(d) => CommandModel::Base64Data(d.data@),
            Command::NoFile => CommandModel::NoFile,
            Command::SubFileRef(r) => CommandModel::SubFileRef {
                color: r.color,
                pos: r.pos.model(),
                row0: r.row0.model(),
                row1: r.row1.model(),
                row2: r.row2.model(),
                file: r.file@,
            },
            Command::Line(l) => CommandModel::Line { color: l.color, vertices: l.vertices.model() },
            Command::Triangle(t) => CommandModel::Triangle {
                color: t.color,
                vertices: t.vertices.model(),
                uvs: t.uvs.model(),
            },
            Command::Quad(q) => CommandModel::Quad {
                color: q.color,
                vertices: q.vertices.model(),
                uvs: q.uvs.model(),
            },
            Command::OptLine(o) => CommandModel::OptLine {
                color: o.color,
                vertices: o.vertices.model(),
                control_points: o.control_points.model(),
            },
        }
    }
}

impl Model for Vec<Command> {
    type M = Seq<CommandModel>;

    open spec fn model(&self) -> Seq<CommandModel> {
        self@.map_values(|c: Command| c.model())
    }
}

} // verus!
