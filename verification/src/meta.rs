//! Line type 0: comments and meta-commands.

use vstd::prelude::*;
use crate::bytes::{
    lemma_span_bound, single_comma, sp, spec_single_comma, spec_sp, spec_tag,
    spec_take_not_comma_or_eol, spec_take_not_cr_or_lf, tag, take_not_comma_or_eol,
    take_not_cr_or_lf, ByteClass,
};
use crate::keywords;
use crate::outcome::{outcome, step, well_formed, Model, Outcome, PResult, ParseErr};
use crate::text::{as_base64, as_utf8, trimmed, to_base64, to_utf8, trim};
use crate::types::{
    Base64DataCmd, CategoryCmd, Command, CommandModel, CommentCmd, DataCmd, FileCmd, KeywordsCmd,
};

verus! {

/// !CATEGORY <category>
pub open spec fn spec_category(s: Seq<u8>) -> Outcome<CommandModel> {
    step(
        spec_tag(s, keywords::CATEGORY@),
        |r1: Seq<u8>, t: Seq<u8>|
            step(
                spec_sp(r1),
                |r2: Seq<u8>, a: Seq<u8>|
                    step(
                        as_utf8(r2, spec_take_not_cr_or_lf(r2)),
                        |r3: Seq<u8>, c: Seq<char>| Outcome::Done(r3, CommandModel::Category(c)),
                    ),
            ),
    )
}

pub fn category(i: &[u8]) -> (r: PResult<'_, Command>)
    ensures
        outcome(r) == spec_category(i@),
{
    let (i, _) = tag(i, keywords::CATEGORY.as_slice())?;
    let (i, _) = sp(i)?;
    let (i, content) = to_utf8(i, take_not_cr_or_lf(i))?;
    Ok((i, Command::Category(CategoryCmd { category: content.to_owned() })))
}

/// One keyword of a !KEYWORDS list: text up to a comma or the end of the line.
pub open spec fn spec_keyword(s: Seq<u8>) -> Outcome<Seq<char>> {
    as_utf8(s, spec_take_not_comma_or_eol(s))
}

/// The keywords that follow, each after a comma, once `acc` has been read.
pub open spec fn spec_more_keywords(s: Seq<u8>, acc: Seq<Seq<char>>) -> Outcome<Seq<Seq<char>>>
    decreases s.len(),
{
    match spec_single_comma(s) {
        Outcome::Done(r1, c) => match spec_keyword(r1) {
            Outcome::Done(r2, k) => {
                proof {
                    lemma_span_bound(r1, ByteClass::NotCommaOrEol);
                }
                spec_more_keywords(r2, acc.push(k))
            },
            Outcome::Error(_, _) => Outcome::Done(s, acc),
            Outcome::Failure(at, e) => Outcome::Failure(at, e),
        },
        Outcome::Error(_, _) => Outcome::Done(s, acc),
        Outcome::Failure(at, e) => Outcome::Failure(at, e),
    }
}

/// One or more keywords separated by commas.
pub open spec fn spec_keywords_list(s: Seq<u8>) -> Outcome<Seq<Seq<char>>> {
    step(spec_keyword(s), |r: Seq<u8>, k: Seq<char>| spec_more_keywords(r, seq![k]))
}

fn keyword(i: &[u8]) -> (r: PResult<'_, &str>)
    ensures
        outcome(r) == spec_keyword(i@),
{
    to_utf8(i, take_not_comma_or_eol(i))
}

pub fn keywords_list(i: &[u8]) -> (r: PResult<'_, Vec<&str>>)
    ensures
        outcome(r) == spec_keywords_list(i@),
{
    let (mut cur, first) = keyword(i)?;
    let mut acc: Vec<&str> = Vec::new();
    acc.push(first);
    assert(acc.model() =~= seq![first@]);
    loop
        invariant
            spec_keywords_list(i@) == spec_more_keywords(cur@, acc.model()),
        decreases cur@.len(),
    {
        match single_comma(cur) {
            Ok((r1, _)) => match keyword(r1) {
                Ok((r2, k)) => {
                    proof {
                        lemma_span_bound(r1@, ByteClass::NotCommaOrEol);
                    }
                    let ghost before = acc.model();
                    acc.push(k);
                    assert(acc.model() =~= before.push(k@));
                    cur = r2;
                },
                Err(ParseErr::Error(_, _)) => return Ok((cur, acc)),
                Err(e) => return Err(e),
            },
            Err(ParseErr::Error(_, _)) => return Ok((cur, acc)),
            Err(e) => return Err(e),
        }
    }
}

/// !KEYWORDS <keyword>, <keyword>, ...: each keyword without its surrounding whitespace.
pub open spec fn spec_keywords(s: Seq<u8>) -> Outcome<CommandModel> {
    step(
        spec_tag(s, keywords::KEYWORDS@),
        |r1: Seq<u8>, t: Seq<u8>|
            step(
                spec_sp(r1),
                |r2: Seq<u8>, a: Seq<u8>|
                    step(
                        spec_keywords_list(r2),
                        |r3: Seq<u8>, ks: Seq<Seq<char>>|
                            Outcome::Done(
                                r3,
                                CommandModel::Keywords(ks.map_values(|k: Seq<char>| trimmed(k))),
                            ),
                    ),
            ),
    )
}

pub fn keywords(i: &[u8]) -> (r: PResult<'_, Command>)
    ensures
        outcome(r) == spec_keywords(i@),
{
    let (i, _) = tag(i, keywords::KEYWORDS.as_slice())?;
    let (i, _) = sp(i)?;
    let (i, list) = keywords_list(i)?;
    let mut out: Vec<String> = Vec::new();
    let mut j: usize = 0;
    while j < list.len()
        invariant
            j <= list@.len(),
            out.model() =~= list.model().take(j as int).map_values(|k: Seq<char>| trimmed(k)),
        decreases list@.len() - j,
    {
        let t = trim(list[j]);
        let ghost before = out.model();
        out.push(t.to_owned());
        assert(list.model().take(j + 1) =~= list.model().take(j as int).push(list@[j as int]@));
        assert(out.model() =~= before.push(trimmed(list@[j as int]@)));
        j = j + 1;
    }
    assert(list.model().take(j as int) =~= list.model());
    Ok((i, Command::Keywords(KeywordsCmd { keywords: out })))
}

/// A comment: the rest of the line.
pub open spec fn spec_comment(s: Seq<u8>) -> Outcome<CommandModel> {
    step(
        as_utf8(s, spec_take_not_cr_or_lf(s)),
        |r: Seq<u8>, c: Seq<char>| Outcome::Done(r, CommandModel::Comment(c)),
    )
}

pub fn comment(i: &[u8]) -> (r: PResult<'_, Command>)
    ensures
        outcome(r) == spec_comment(i@),
{
    let (i, text) = to_utf8(i, take_not_cr_or_lf(i))?;
    Ok((i, Command::Comment(CommentCmd::new(text))))
}

/// FILE <name>
pub open spec fn spec_meta_file(s: Seq<u8>) -> Outcome<CommandModel> {
    step(
        spec_tag(s, keywords::FILE@),
        |r1: Seq<u8>, t: Seq<u8>|
            step(
                spec_sp(r1),
                |r2: Seq<u8>, a: Seq<u8>|
                    step(
                        as_utf8(r2, spec_take_not_cr_or_lf(r2)),
                        |r3: Seq<u8>, f: Seq<char>| Outcome::Done(r3, CommandModel::File(f)),
                    ),
            ),
    )
}

pub fn meta_file(i: &[u8]) -> (r: PResult<'_, Command>)
    ensures
        outcome(r) == spec_meta_file(i@),
{
    let (i, _) = tag(i, keywords::FILE.as_slice())?;
    let (i, _) = sp(i)?;
    let (i, file) = to_utf8(i, take_not_cr_or_lf(i))?;
    Ok((i, Command::File(FileCmd { file: file.to_owned() })))
}

/// !DATA <name>
pub open spec fn spec_meta_data(s: Seq<u8>) -> Outcome<CommandModel> {
    step(
        spec_tag(s, keywords::DATA@),
        |r1: Seq<u8>, t: Seq<u8>|
            step(
                spec_sp(r1),
                |r2: Seq<u8>, a: Seq<u8>|
                    step(
                        as_utf8(r2, spec_take_not_cr_or_lf(r2)),
                        |r3: Seq<u8>, f: Seq<char>| Outcome::Done(r3, CommandModel::Data(f)),
                    ),
            ),
    )
}

pub fn meta_data(i: &[u8]) -> (r: PResult<'_, Command>)
    ensures
        outcome(r) == spec_meta_data(i@),
{
    let (i, _) = tag(i, keywords::DATA.as_slice())?;
    let (i, _) = sp(i)?;
    let (i, file) = to_utf8(i, take_not_cr_or_lf(i))?;
    Ok((i, Command::Data(DataCmd { file: file.to_owned() })))
}

/// !: <Base64 data>
pub open spec fn spec_meta_base_64_data(s: Seq<u8>) -> Outcome<CommandModel> {
    step(
        spec_tag(s, keywords::BASE64_DATA@),
        |r1: Seq<u8>, t: Seq<u8>|
            step(
                spec_sp(r1),
                |r2: Seq<u8>, a: Seq<u8>|
                    step(
                        as_base64(r2, spec_take_not_cr_or_lf(r2)),
                        |r3: Seq<u8>, d: Seq<u8>| Outcome::Done(r3, CommandModel::Base64Data(d)),
                    ),
            ),
    )
}

pub fn meta_base_64_data(i: &[u8]) -> (r: PResult<'_, Command>)
    ensures
        outcome(r) == spec_meta_base_64_data(i@),
{
    let (i, _) = tag(i, keywords::BASE64_DATA.as_slice())?;
    let (i, _) = sp(i)?;
    let (i, data) = to_base64(i, take_not_cr_or_lf(i))?;
    Ok((i, Command::Base64Data(Base64DataCmd { data })))
}

/// NOFILE
pub open spec fn spec_meta_nofile(s: Seq<u8>) -> Outcome<CommandModel> {
    step(spec_tag(s, keywords::NOFILE@), |r: Seq<u8>, t: Seq<u8>| Outcome::Done(r, CommandModel::NoFile))
}

pub fn meta_nofile(i: &[u8]) -> (r: PResult<'_, Command>)
    ensures
        outcome(r) == spec_meta_nofile(i@),
{
    let (i, _) = tag(i, keywords::NOFILE.as_slice())?;
    Ok((i, Command::NoFile))
}

pub broadcast proof fn lemma_more_keywords_well_formed(s: Seq<u8>, acc: Seq<Seq<char>>)
    ensures
        well_formed(#[trigger] spec_more_keywords(s, acc), s),
    decreases s.len(),
{
    broadcast use crate::bytes::group_bytes_well_formed, crate::text::group_text_well_formed;

    if let Outcome::Done(r1, c) = spec_single_comma(s) {
        if let Outcome::Done(r2, k) = spec_keyword(r1) {
            lemma_span_bound(r1, ByteClass::NotCommaOrEol);
            lemma_more_keywords_well_formed(r2, acc.push(k));
        }
    }
}

pub broadcast proof fn lemma_keywords_list_well_formed(s: Seq<u8>)
    ensures
        well_formed(#[trigger] spec_keywords_list(s), s),
{
    broadcast use crate::bytes::group_bytes_well_formed, crate::text::group_text_well_formed, lemma_more_keywords_well_formed;
}

pub broadcast proof fn lemma_category_well_formed(s: Seq<u8>)
    ensures
        well_formed(#[trigger] spec_category(s), s),
{
    broadcast use crate::bytes::group_bytes_well_formed, crate::text::group_text_well_formed;
}

pub broadcast proof fn lemma_keywords_well_formed(s: Seq<u8>)
    ensures
        well_formed(#[trigger] spec_keywords(s), s),
{
    broadcast use crate::bytes::group_bytes_well_formed, lemma_keywords_list_well_formed;
}

pub broadcast proof fn lemma_comment_well_formed(s: Seq<u8>)
    ensures
        well_formed(#[trigger] spec_comment(s), s),
{
    broadcast use crate::bytes::group_bytes_well_formed, crate::text::group_text_well_formed;
}

pub broadcast proof fn lemma_meta_file_well_formed(s: Seq<u8>)
    ensures
        well_formed(#[trigger] spec_meta_file(s), s),
{
    broadcast use crate::bytes::group_bytes_well_formed, crate::text::group_text_well_formed;
}

pub broadcast proof fn lemma_meta_data_well_formed(s: Seq<u8>)
    ensures
        well_formed(#[trigger] spec_meta_data(s), s),
{
    broadcast use crate::bytes::group_bytes_well_formed, crate::text::group_text_well_formed;
}

pub broadcast proof fn lemma_meta_base_64_data_well_formed(s: Seq<u8>)
    ensures
        well_formed(#[trigger] spec_meta_base_64_data(s), s),
{
    broadcast use crate::bytes::group_bytes_well_formed, crate::text::group_text_well_formed;
}

pub broadcast proof fn lemma_meta_nofile_well_formed(s: Seq<u8>)
    ensures
        well_formed(#[trigger] spec_meta_nofile(s), s),
{
    broadcast use crate::bytes::group_bytes_well_formed;
}

pub broadcast group group_meta_well_formed {
    lemma_category_well_formed,
    lemma_keywords_well_formed,
    lemma_comment_well_formed,
    lemma_meta_file_well_formed,
    lemma_meta_data_well_formed,
    lemma_meta_base_64_data_well_formed,
    lemma_meta_nofile_well_formed,
}

} // verus!
