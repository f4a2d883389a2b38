//! Lines and files: "An LDraw file consists of one command per line."

use vstd::prelude::*;
use crate::bytes::{
    lemma_span_bound, read_cmd_id_str, space_or_eol0, span, spec_read_cmd_id_str,
    spec_space_or_eol0, take_not_cr_or_lf, take_while, ByteClass,
};
use crate::colour::{meta_colour, spec_meta_colour};
use crate::geometry::{
    file_ref_cmd, line_cmd, opt_line_cmd, quad_cmd, spec_file_ref_cmd, spec_line_cmd,
    spec_opt_line_cmd, spec_quad_cmd, spec_tri_cmd, tri_cmd,
};
use crate::meta::{
    category, comment, keywords, meta_base_64_data, meta_data, meta_file, meta_nofile,
    spec_category, spec_comment, spec_keywords, spec_meta_base_64_data, spec_meta_data,
    spec_meta_file, spec_meta_nofile,
};
use crate::outcome::{either, outcome, step, well_formed, ErrorKind, Model, Outcome, PResult, ParseErr};
use crate::types::{Command, CommandModel};

verus! {

/// A comment or meta-command: the meta-commands are tried in turn, and a
/// line that is none of them is a comment.
pub open spec fn spec_meta_cmd(s: Seq<u8>) -> Outcome<CommandModel> {
    either(
        spec_category(s),
        either(
            spec_keywords(s),
            either(
                spec_meta_colour(s),
                either(
                    spec_meta_file(s),
                    either(
                        spec_meta_nofile(s),
                        either(
                            spec_meta_data(s),
                            either(spec_meta_base_64_data(s), spec_comment(s)),
                        ),
                    ),
                ),
            ),
        ),
    )
}

pub fn meta_cmd(i: &[u8]) -> (r: PResult<'_, Command>)
    ensures
        outcome(r) == spec_meta_cmd(i@),
{
    match category(i) {
        Err(ParseErr::Error(_, _)) => {},
        r => return r,
    }
    match keywords(i) {
        Err(ParseErr::Error(_, _)) => {},
        r => return r,
    }
    match meta_colour(i) {
        Err(ParseErr::Error(_, _)) => {},
        r => return r,
    }
    match meta_file(i) {
        Err(ParseErr::Error(_, _)) => {},
        r => return r,
    }
    match meta_nofile(i) {
        Err(ParseErr::Error(_, _)) => {},
        r => return r,
    }
    match meta_data(i) {
        Err(ParseErr::Error(_, _)) => {},
        r => return r,
    }
    match meta_base_64_data(i) {
        Err(ParseErr::Error(_, _)) => {},
        r => return r,
    }
    comment(i)
}

/// The command of a line, chosen by its line type.
pub open spec fn spec_command(s: Seq<u8>, line_type: Seq<u8>) -> Outcome<CommandModel> {
    if line_type == seq![48u8] {
        spec_meta_cmd(s)
    } else if line_type == seq![49u8] {
        spec_file_ref_cmd(s)
    } else if line_type == seq![50u8] {
        spec_line_cmd(s)
    } else if line_type == seq![51u8] {
        spec_tri_cmd(s)
    } else if line_type == seq![52u8] {
        spec_quad_cmd(s)
    } else if line_type == seq![53u8] {
        spec_opt_line_cmd(s)
    } else {
        Outcome::Error(s, ErrorKind::Switch)
    }
}

/// "Each command consists of optional leading whitespace followed by
/// whitespace-delimited tokens." "The line type of a line is the first number
/// on the line." Blank lines before the command are skipped.
#[verifier::opaque]
pub open spec fn spec_read_line(s: Seq<u8>) -> Outcome<CommandModel> {
    step(
        spec_space_or_eol0(s),
        |r1: Seq<u8>, a: Seq<u8>|
            step(spec_read_cmd_id_str(r1), |r2: Seq<u8>, line_type: Seq<u8>| spec_command(r2, line_type)),
    )
}

fn command<'a>(i: &'a [u8], line_type: &[u8]) -> (r: PResult<'a, Command>)
    ensures
        outcome(r) == spec_command(i@, line_type@),
{
    if line_type.len() == 1 {
        let c = line_type[0];
        if c == 48u8 {
            assert(line_type@ == seq![48u8]);
            return meta_cmd(i);
        } else if c == 49u8 {
            assert(line_type@ == seq![49u8]);
            return file_ref_cmd(i);
        } else if c == 50u8 {
            assert(line_type@ == seq![50u8]);
            return line_cmd(i);
        } else if c == 51u8 {
            assert(line_type@ == seq![51u8]);
            return tri_cmd(i);
        } else if c == 52u8 {
            assert(line_type@ == seq![52u8]);
            return quad_cmd(i);
        } else if c == 53u8 {
            assert(line_type@ == seq![53u8]);
            return opt_line_cmd(i);
        }
    }
    Err(ParseErr::Error(i, ErrorKind::Switch))
}

/// Reads one line: skips blank lines, reads the line type, and the command.
pub fn read_line(i: &[u8]) -> (r: PResult<'_, Command>)
    ensures
        outcome(r) == spec_read_line(i@),
{
    proof {
        reveal(spec_read_line);
    }
    let (i, _) = space_or_eol0(i)?;
    let (i, cmd_id) = read_cmd_id_str(i)?;
    command(i, cmd_id)
}

pub broadcast proof fn lemma_meta_cmd_well_formed(s: Seq<u8>)
    ensures
        well_formed(#[trigger] spec_meta_cmd(s), s),
{
    broadcast use crate::meta::group_meta_well_formed, crate::colour::lemma_meta_colour_well_formed;
}

/// Reading a line always moves on: a command is never read from nothing;
/// and a line stops the whole parse only on a number.
pub proof fn lemma_read_line_progress(s: Seq<u8>)
    ensures
        spec_read_line(s) matches Outcome::Done(rest, _) ==> rest.len() < s.len(),
        spec_read_line(s) matches Outcome::Failure(_, k) ==> k == ErrorKind::Float,
{
    reveal(spec_read_line);
    broadcast use crate::bytes::group_bytes_well_formed, crate::bytes::lemma_read_cmd_id_str_progress,
        crate::geometry::group_geometry_well_formed, lemma_meta_cmd_well_formed;
}

/// A line type that names a command: one of "0" to "5".
pub open spec fn is_line_type(id: Seq<u8>) -> bool {
    id.len() == 1 && 48 <= id[0] <= 53
}

/// "The line type of a line is the first number on the line": its digits,
/// after the blank bytes before it (none where the line does not begin with
/// a number).
pub open spec fn line_type_of(s: Seq<u8>) -> Seq<u8> {
    let t = s.skip(span(s, ByteClass::SpaceOrEol) as int);
    t.take(span(t, ByteClass::Digit) as int)
}

/// "If the line type of the command is invalid, the line is ignored": where
/// the next line has a line type other than 0 to 5, what follows that line,
/// from its end of line on.
pub open spec fn spec_ignored_line(s: Seq<u8>) -> Option<Seq<u8>> {
    let id = line_type_of(s);
    if id.len() > 0 && !is_line_type(id) {
        let u = s.skip((span(s, ByteClass::SpaceOrEol) + id.len()) as int);
        Some(u.skip(span(u, ByteClass::NotCrOrLf) as int))
    } else {
        None
    }
}

/// Skips the next line where its line type is invalid; `None` where it is not.
pub fn ignored_line(i: &[u8]) -> (r: Option<&[u8]>)
    ensures
        match r {
            Some(t) => spec_ignored_line(i@) == Some(t@),
            None => spec_ignored_line(i@) is None,
        },
{
    proof {
        lemma_span_bound(i@, ByteClass::SpaceOrEol);
        let t = i@.skip(span(i@, ByteClass::SpaceOrEol) as int);
        lemma_span_bound(t, ByteClass::Digit);
        assert(t.skip(span(t, ByteClass::Digit) as int)
            =~= i@.skip((span(i@, ByteClass::SpaceOrEol) + span(t, ByteClass::Digit)) as int));
    }
    let (t, _) = match space_or_eol0(i) {
        Ok(p) => p,
        Err(_) => return None,
    };
    let (u, id) = match take_while(t, ByteClass::Digit) {
        Ok(p) => p,
        Err(_) => return None,
    };
    if id.len() == 0 || (id.len() == 1 && 48u8 <= id[0] && id[0] <= 53u8) {
        return None;
    }
    match take_not_cr_or_lf(u) {
        Ok((rest, _)) => Some(rest),
        Err(_) => None,
    }
}

/// Skipping a line always moves on.
pub proof fn lemma_ignored_line_progress(s: Seq<u8>)
    ensures
        spec_ignored_line(s) matches Some(t) ==> t.len() < s.len(),
{
    lemma_span_bound(s, ByteClass::SpaceOrEol);
    let t = s.skip(span(s, ByteClass::SpaceOrEol) as int);
    lemma_span_bound(t, ByteClass::Digit);
    let u = s.skip((span(s, ByteClass::SpaceOrEol) + line_type_of(s).len()) as int);
    lemma_span_bound(u, ByteClass::NotCrOrLf);
}

/// A line of invalid line type is one from which no command can be read.
pub proof fn lemma_ignored_line_is_unreadable(s: Seq<u8>)
    ensures
        spec_ignored_line(s) is Some ==> spec_read_line(s) is Error,
{
    reveal(spec_read_line);
    lemma_span_bound(s, ByteClass::SpaceOrEol);
    let t = s.skip(span(s, ByteClass::SpaceOrEol) as int);
    lemma_span_bound(t, ByteClass::Digit);
    let id = line_type_of(s);
    if id.len() > 0 && !is_line_type(id) {
        assert(id != seq![48u8] && id != seq![49u8] && id != seq![50u8]);
        assert(id != seq![51u8] && id != seq![52u8] && id != seq![53u8]);
    }
}

/// Lines read one after another, after the commands `acc`: a line of invalid
/// line type is skipped, and reading ends at a line that cannot be read.
pub open spec fn spec_lines(s: Seq<u8>, acc: Seq<CommandModel>) -> Outcome<Seq<CommandModel>>
    decreases s.len(),
{
    match spec_ignored_line(s) {
        Some(t) => {
            proof {
                lemma_ignored_line_progress(s);
            }
            spec_lines(t, acc)
        },
        None => match spec_read_line(s) {
            Outcome::Done(rest, c) => if rest.len() == s.len() {
                Outcome::Error(s, ErrorKind::Many0)
            } else {
                proof {
                    lemma_read_line_progress(s);
                }
                spec_lines(rest, acc.push(c))
            },
            Outcome::Error(_, _) => Outcome::Done(s, acc),
            Outcome::Failure(at, e) => Outcome::Failure(at, e),
        },
    }
}

/// Where the parsing of a file stopped, and why.
#[derive(Debug, PartialEq, Eq)]
pub struct ParseError {
    /// The file that was parsed, where it is known.
    pub filename: String,
    /// What stopped the parse.
    pub kind: ErrorKind,
    /// The number of bytes of the file left where it stopped.
    pub remaining: usize,
}

impl ParseError {
    /// The error that reports a parser's failure in the file `filename`.
    pub fn from_parse_err(filename: &str, e: &ParseErr) -> (p: ParseError)
        ensures
            p.filename@ == filename@,
            match e {
                ParseErr::Error(at, k) => p.kind == k && p.remaining == at@.len(),
                ParseErr::Failure(at, k) => p.kind == k && p.remaining == at@.len(),
            },
    {
        match e {
            ParseErr::Error(at, k) => ParseError { filename: filename.to_owned(), kind: *k, remaining: at.len() },
            ParseErr::Failure(at, k) => ParseError { filename: filename.to_owned(), kind: *k, remaining: at.len() },
        }
    }
}

/// The errors of the library.
#[derive(Debug, PartialEq, Eq)]
pub enum Error {
    Parse(ParseError),
}

/// The commands of a file, or where and why reading it stopped: the lines
/// are read one after another, lines of invalid line type are skipped, and
/// reading ends at a line that cannot be read; an error that stops
/// the whole parse is reported with the number of bytes left where it
/// occurred.
pub open spec fn spec_parse_raw(s: Seq<u8>) -> Result<Seq<CommandModel>, (nat, ErrorKind)> {
    match spec_lines(s, seq![]) {
        Outcome::Done(_, cmds) => Ok(cmds),
        Outcome::Error(at, k) => Err((at.len(), k)),
        Outcome::Failure(at, k) => Err((at.len(), k)),
    }
}

/// Parses the content of an LDraw file into its commands.
pub fn parse_raw(ldr_content: &[u8]) -> (r: Result<Vec<Command>, Error>)
    ensures
        match spec_parse_raw(ldr_content@) {
            Ok(cmds) => r matches Ok(v) && v.model() == cmds,
            Err((remaining, k)) => r matches Err(Error::Parse(p)) && p.kind == k
                && p.remaining == remaining && p.filename@.len() == 0,
        },
{
    let mut i = ldr_content;
    let mut acc: Vec<Command> = Vec::new();
    assert(acc.model() =~= Seq::<CommandModel>::empty());
    loop
        invariant
            spec_lines(ldr_content@, seq![]) == spec_lines(i@, acc.model()),
        decreases i@.len(),
    {
        if let Some(rest) = ignored_line(i) {
            proof {
                lemma_ignored_line_progress(i@);
            }
            i = rest;
            continue;
        }
        match read_line(i) {
            Ok((rest, c)) => {
                if rest.len() == i.len() {
                    proof {
                        reveal_strlit("");
                    }
                    let e = ParseErr::Error(i, ErrorKind::Many0);
                    return Err(Error::Parse(ParseError::from_parse_err("", &e)));
                }
                proof {
                    lemma_read_line_progress(i@);
                }
                let ghost before = acc.model();
                acc.push(c);
                assert(acc.model() =~= before.push(c.model()));
                i = rest;
            },
            Err(ParseErr::Error(_, _)) => return Ok(acc),
            Err(e) => {
                proof {
                    reveal_strlit("");
                }
                return Err(Error::Parse(ParseError::from_parse_err("", &e)));
            },
        }
    }
}

} // verus!
