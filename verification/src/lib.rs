//! A verified reader for the LDraw file format, the text format of the LDraw
//! library of LEGO parts.
//!
//! "An LDraw file consists of one command per line." [`parse_raw`] reads the
//! commands of a file; each parser of the grammar is also public, and each
//! states in its contract the mathematical function of the input that it
//! computes (the `spec_` functions of its module).
//!
//! A number is kept as the text it was read from ([`FloatText`]); turning it
//! into a floating-point value is left to the program that uses the library.

pub mod outcome;
pub mod bytes;
pub mod types;
pub mod keywords;
pub mod number;
pub mod text;
pub mod colour;
pub mod meta;
pub mod geometry;
pub mod parse;
pub mod laws;
pub mod tokens;
pub mod alike;
pub mod line_ends;
pub mod commands;

pub use outcome::{nom_error, ErrorKind, PResult, ParseErr};
pub use parse::{parse_raw, Error, ParseError};
pub use types::{
    Base64DataCmd, CategoryCmd, Color, ColorFinish, ColourCmd, Command, CommentCmd, DataCmd,
    FileCmd, FloatText, GlitterMaterial, GrainSize, KeywordsCmd, LineCmd, MaterialFinish,
    OptLineCmd, QuadCmd, SpeckleMaterial, SubFileRefCmd, TriangleCmd, Vec2, Vec3,
};
