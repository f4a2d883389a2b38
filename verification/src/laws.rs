//! What holds of the parse of a whole file.

use vstd::prelude::*;
use vstd::utf8::{
    decode_first_scalar, decode_utf8, decode_utf8_first_scalar, pop_first_scalar, take_first_scalar,
    valid_utf8,
};
use crate::bytes::{
    in_class, is_cr_or_lf, lemma_span_bound, lemma_span_concat, lemma_span_prefix, span,
    spec_take_not_cr_or_lf, ByteClass,
};
use crate::colour::spec_meta_colour;
use crate::geometry::{
    spec_file_ref_cmd, spec_line_cmd, spec_opt_line_cmd, spec_quad_cmd, spec_tri_cmd,
};
use crate::meta::{
    spec_category, spec_comment, spec_keywords, spec_meta_base_64_data, spec_meta_data,
    spec_meta_file, spec_meta_nofile,
};
use crate::outcome::{ErrorKind, Outcome};
use crate::parse::{
    is_line_type, lemma_ignored_line_is_unreadable, lemma_ignored_line_progress,
    lemma_read_line_progress, line_type_of, spec_command, spec_ignored_line, spec_lines,
    spec_meta_cmd, spec_parse_raw, spec_read_line,
};
use crate::text::as_utf8;
use crate::types::CommandModel;

verus! {

/// Bytes that make blank lines: spaces, tabs, <CR> and <LF>.
pub open spec fn is_blank(ws: Seq<u8>) -> bool {
    forall|j: int| 0 <= j < ws.len() ==> in_class(#[trigger] ws[j], ByteClass::SpaceOrEol)
}

pub proof fn lemma_span_after(ws: Seq<u8>, s: Seq<u8>, k: ByteClass)
    requires
        forall|j: int| 0 <= j < ws.len() ==> in_class(#[trigger] ws[j], k),
    ensures
        span(ws + s, k) == ws.len() + span(s, k),
    decreases ws.len(),
{
    if ws.len() > 0 {
        let t = ws.drop_first();
        assert((ws + s).drop_first() =~= t + s);
        assert forall|j: int| 0 <= j < t.len() implies in_class(#[trigger] t[j], k) by {
            assert(t[j] == ws[j + 1]);
        }
        lemma_span_after(t, s, k);
    } else {
        assert(ws + s =~= s);
    }
}

/// A line is read from blank bytes and what follows them as from what follows them.
pub proof fn lemma_read_line_after_blank(ws: Seq<u8>, s: Seq<u8>)
    requires
        is_blank(ws),
    ensures
        spec_read_line(ws + s) == spec_read_line(s),
{
    reveal(spec_read_line);
    lemma_span_after(ws, s, ByteClass::SpaceOrEol);
    lemma_span_bound(s, ByteClass::SpaceOrEol);
    let n = span(s, ByteClass::SpaceOrEol) as int;
    assert((ws + s).skip(ws.len() + n) =~= s.skip(n));
}

/// Blank bytes before a line do not change whether it is skipped, nor where
/// skipping it leads.
pub proof fn lemma_ignored_line_after_blank(ws: Seq<u8>, s: Seq<u8>)
    requires
        is_blank(ws),
    ensures
        spec_ignored_line(ws + s) == spec_ignored_line(s),
{
    lemma_span_after(ws, s, ByteClass::SpaceOrEol);
    lemma_span_bound(s, ByteClass::SpaceOrEol);
    let n = span(s, ByteClass::SpaceOrEol) as int;
    assert((ws + s).skip(ws.len() + n) =~= s.skip(n));
    let t = s.skip(n);
    lemma_span_bound(t, ByteClass::Digit);
    let m = span(t, ByteClass::Digit) as int;
    assert((ws + s).skip(ws.len() + n + m) =~= s.skip(n + m));
}

/// "Lines may also be empty or consist only of whitespace. Such lines have no
/// effect": blank lines before a file's content do not change what is read
/// from it.
pub proof fn law_blank_lines_have_no_effect(ws: Seq<u8>, s: Seq<u8>)
    requires
        is_blank(ws),
    ensures
        spec_parse_raw(ws + s) == spec_parse_raw(s),
{
    lemma_ignored_line_after_blank(ws, s);
    lemma_read_line_after_blank(ws, s);
    lemma_read_line_progress(s);
}

/// The commands `acc` read before a parse of lines come first in its result.
pub open spec fn after_commands(
    acc: Seq<CommandModel>,
    o: Outcome<Seq<CommandModel>>,
) -> Outcome<Seq<CommandModel>> {
    match o {
        Outcome::Done(rest, cmds) => Outcome::Done(rest, acc + cmds),
        Outcome::Error(at, e) => Outcome::Error(at, e),
        Outcome::Failure(at, e) => Outcome::Failure(at, e),
    }
}

proof fn lemma_lines_after(s: Seq<u8>, acc: Seq<CommandModel>)
    ensures
        spec_lines(s, acc) == after_commands(acc, spec_lines(s, seq![])),
    decreases s.len(),
{
    lemma_read_line_progress(s);
    lemma_ignored_line_progress(s);
    if let Some(t) = spec_ignored_line(s) {
        lemma_lines_after(t, acc);
    } else if let Outcome::Done(rest, c) = spec_read_line(s) {
        lemma_lines_after(rest, acc.push(c));
        lemma_lines_after(rest, seq![c]);
        assert(acc.push(c) =~= acc + seq![c]);
        if let Outcome::Done(r, cs) = spec_lines(rest, seq![]) {
            assert(acc + (seq![c] + cs) =~= acc.push(c) + cs);
        }
    } else {
        assert(acc + seq![] =~= acc);
    }
}

/// "An LDraw file consists of one command per line": where a line can be
/// read, its command comes first, followed by the commands of the rest of
/// the file; an error in the rest is the error of the whole.
pub proof fn law_one_command_per_line(s: Seq<u8>)
    ensures
        spec_read_line(s) matches Outcome::Done(rest, c) ==> spec_parse_raw(s) == match spec_parse_raw(rest) {
            Ok(cmds) => Ok(seq![c] + cmds),
            Err(e) => Err(e),
        },
{
    lemma_read_line_progress(s);
    lemma_ignored_line_is_unreadable(s);
    if let Outcome::Done(rest, c) = spec_read_line(s) {
        lemma_lines_after(rest, seq![c]);
    }
}

/// Blank lines between two commands have no effect either: after a line is
/// read, the file reads as if the blank lines that follow it were not there.
pub proof fn law_blank_lines_between_commands(s: Seq<u8>, ws: Seq<u8>, t: Seq<u8>)
    requires
        is_blank(ws),
    ensures
        spec_read_line(s) matches Outcome::Done(rest, c) ==> (rest == ws + t ==> spec_parse_raw(s)
            == match spec_parse_raw(t) {
            Ok(cmds) => Ok(seq![c] + cmds),
            Err(e) => Err(e),
        }),
{
    law_one_command_per_line(s);
    law_blank_lines_have_no_effect(ws, t);
}

/// A file "capable of reading files with the standard Unix line termination
/// of <LF>": where a command is read from two files alike and leaves the same
/// rest of the file after an <LF> in one and a <CR><LF> in the other, the two
/// files read alike.
pub proof fn law_line_ends_read_alike(s1: Seq<u8>, s2: Seq<u8>, t: Seq<u8>)
    requires
        spec_read_line(s1) matches Outcome::Done(r1, c1) && r1 == seq![13u8, 10u8] + t,
        spec_read_line(s2) matches Outcome::Done(r2, c2) && r2 == seq![10u8] + t,
        spec_read_line(s1)->Done_1 == spec_read_line(s2)->Done_1,
    ensures
        spec_parse_raw(s1) == spec_parse_raw(s2),
{
    law_one_command_per_line(s1);
    law_one_command_per_line(s2);
    law_blank_lines_have_no_effect(seq![13u8, 10u8], t);
    law_blank_lines_have_no_effect(seq![10u8], t);
}

/// Only an error that stops the whole parse (a number cut short) makes a
/// file fail; it is reported where it occurred.
pub proof fn law_failure_is_reported(s: Seq<u8>)
    ensures
        spec_read_line(s) matches Outcome::Failure(at, k) ==> spec_parse_raw(s) == Err::<Seq<CommandModel>, (nat, ErrorKind)>((at.len(), k)),
{
    lemma_ignored_line_is_unreadable(s);
}

proof fn lemma_lines_stop(s: Seq<u8>, acc: Seq<CommandModel>)
    ensures
        !(spec_lines(s, acc) is Error),
        spec_lines(s, acc) matches Outcome::Failure(_, k) ==> k == ErrorKind::Float,
    decreases s.len(),
{
    lemma_read_line_progress(s);
    lemma_ignored_line_progress(s);
    if let Some(t) = spec_ignored_line(s) {
        lemma_lines_stop(t, acc);
    } else if let Outcome::Done(rest, c) = spec_read_line(s) {
        lemma_lines_stop(rest, acc.push(c));
    }
}

/// A file fails to parse only where a number is cut short (such as "1e"
/// without the digits of its exponent); every other line that cannot be
/// read just ends the parse.
pub proof fn law_only_numbers_fail(s: Seq<u8>)
    ensures
        spec_parse_raw(s) matches Err((_, k)) ==> k == ErrorKind::Float,
{
    lemma_lines_stop(s, seq![]);
}

/// <LF>, or <CR><LF>.
pub open spec fn is_end_of_line(eol: Seq<u8>) -> bool {
    eol == seq![10u8] || eol == seq![13u8, 10u8]
}

/// Bytes of one line: no <CR> and no <LF>.
pub open spec fn is_one_line(l: Seq<u8>) -> bool {
    forall|j: int| 0 <= j < l.len() ==> !is_cr_or_lf(#[trigger] l[j])
}

/// "If the line type of the command is invalid, the line is ignored": a line
/// whose line type is a number other than 0 to 5, with its end of line, does
/// not change what is read from a file, whatever else it holds.
pub proof fn law_invalid_line_type_is_ignored(l: Seq<u8>, eol: Seq<u8>, t: Seq<u8>)
    requires
        is_one_line(l),
        is_end_of_line(eol),
        line_type_of(l).len() > 0,
        !is_line_type(line_type_of(l)),
    ensures
        spec_parse_raw(l + eol + t) == spec_parse_raw(t),
{
    let b = eol + t;
    let s = l + b;
    assert(l + eol + t =~= s);
    lemma_span_bound(l, ByteClass::SpaceOrEol);
    let n = span(l, ByteClass::SpaceOrEol) as int;
    let tl = l.skip(n);
    if n == l.len() {
        assert(tl.len() == 0);
        assert(span(tl, ByteClass::Digit) == 0);
    }
    assert(n < l.len());
    lemma_span_concat(l, b, ByteClass::SpaceOrEol);
    assert(s.skip(n) =~= tl + b);
    lemma_span_bound(tl, ByteClass::Digit);
    let m = span(tl, ByteClass::Digit) as int;
    assert(!in_class(b[0], ByteClass::Digit));
    lemma_span_concat(tl, b, ByteClass::Digit);
    assert((tl + b).take(m) =~= tl.take(m));
    assert(line_type_of(s) == line_type_of(l));
    let ul = l.skip(n + m);
    assert(s.skip(n + m) =~= ul + b);
    assert forall|j: int| 0 <= j < ul.len() implies in_class(#[trigger] ul[j], ByteClass::NotCrOrLf) by {
        assert(ul[j] == l[n + m + j]);
    }
    lemma_span_after(ul, b, ByteClass::NotCrOrLf);
    assert(span(b, ByteClass::NotCrOrLf) == 0);
    assert((ul + b).skip(ul.len() as int) =~= b);
    assert(spec_ignored_line(s) == Some(b));
    assert(is_blank(eol));
    law_blank_lines_have_no_effect(eol, t);
}

/// The lines `ls`, each followed by the end of line `eol`.
pub open spec fn lines_ending_with(ls: Seq<Seq<u8>>, eol: Seq<u8>) -> Seq<u8>
    decreases ls.len(),
{
    if ls.len() == 0 {
        Seq::empty()
    } else {
        ls[0] + (eol + lines_ending_with(ls.drop_first(), eol))
    }
}

/// The command `c` is read from the line `l` up to its end of line `eol`,
/// whatever follows.
pub open spec fn reads_to_line_end(l: Seq<u8>, c: CommandModel, eol: Seq<u8>) -> bool {
    forall|t: Seq<u8>| #[trigger] spec_read_line(l + (eol + t)) == Outcome::Done(eol + t, c)
}

/// Nothing is read from an empty file.
proof fn lemma_empty_file()
    ensures
        spec_parse_raw(Seq::<u8>::empty()) == Ok::<Seq<CommandModel>, (nat, ErrorKind)>(seq![]),
{
    reveal(spec_read_line);
    let e = Seq::<u8>::empty();
    assert(span(e, ByteClass::SpaceOrEol) == 0);
    assert(span(e, ByteClass::Digit) == 0);
    assert(e.skip(0) =~= e);
    assert(line_type_of(e).len() == 0);
}

/// "An LDraw file consists of one command per line", with the standard Unix
/// line termination of <LF> or with <CR><LF>: where each line is read up to
/// its end of line, a file reads as the commands of its lines, in order,
/// whichever of the two ends its lines.
pub proof fn law_file_of_lines(ls: Seq<Seq<u8>>, cs: Seq<CommandModel>, eol: Seq<u8>)
    requires
        is_end_of_line(eol),
        ls.len() == cs.len(),
        forall|i: int| 0 <= i < ls.len() ==> reads_to_line_end(#[trigger] ls[i], cs[i], eol),
    ensures
        spec_parse_raw(lines_ending_with(ls, eol)) == Ok::<Seq<CommandModel>, (nat, ErrorKind)>(cs),
    decreases ls.len(),
{
    if ls.len() == 0 {
        lemma_empty_file();
        assert(cs =~= seq![]);
    } else {
        let rest = lines_ending_with(ls.drop_first(), eol);
        let s = ls[0] + (eol + rest);
        assert(reads_to_line_end(ls[0], cs[0], eol));
        assert(spec_read_line(s) == Outcome::Done(eol + rest, cs[0]));
        assert forall|i: int| 0 <= i < ls.drop_first().len() implies reads_to_line_end(
            #[trigger] ls.drop_first()[i],
            cs.drop_first()[i],
            eol,
        ) by {
            assert(reads_to_line_end(ls[i + 1], cs[i + 1], eol));
        }
        law_file_of_lines(ls.drop_first(), cs.drop_first(), eol);
        law_one_command_per_line(s);
        assert(is_blank(eol));
        law_blank_lines_have_no_effect(eol, rest);
        assert(seq![cs[0]] + cs.drop_first() =~= cs);
    }
}

/// A line break: <CR> or <LF>.
pub open spec fn is_line_break(c: char) -> bool {
    c == '\n' || c == '\r'
}

/// Text without a line break.
pub open spec fn on_one_line(t: Seq<char>) -> bool {
    forall|k: int| 0 <= k < t.len() ==> !is_line_break(#[trigger] t[k])
}

/// UTF-8 without the bytes of <CR> and <LF> decodes to text without a line break.
proof fn lemma_decode_on_one_line(b: Seq<u8>)
    requires
        valid_utf8(b),
        forall|j: int| 0 <= j < b.len() ==> !is_cr_or_lf(#[trigger] b[j]),
    ensures
        on_one_line(decode_utf8(b)),
    decreases b.len(),
{
    if b.len() > 0 {
        let rest = pop_first_scalar(b);
        assert forall|j: int| 0 <= j < rest.len() implies !is_cr_or_lf(#[trigger] rest[j]) by {
            assert(rest[j] == b[j + (b.len() - rest.len())]);
        }
        lemma_decode_on_one_line(rest);
        let c = decode_first_scalar(b) as char;
        decode_utf8_first_scalar(b);
        if c == '\n' || c == '\r' {
            let u = c as u32;
            assert(u == 10 || u == 13);
            assert((10u32 & 0x7F) as u8 == 10u8 && (13u32 & 0x7F) as u8 == 13u8) by (bit_vector);
            assert(take_first_scalar(b)[0] == b[0]);
        }
        let t = decode_utf8(b);
        assert(t == seq![c] + decode_utf8(rest));
        assert forall|k: int| 0 <= k < t.len() implies !is_line_break(#[trigger] t[k]) by {
            if k > 0 {
                assert(t[k] == decode_utf8(rest)[k - 1]);
            }
        }
    }
}

/// The rest of a line, read as text, holds no line break.
broadcast proof fn lemma_rest_of_line_on_one_line(s: Seq<u8>)
    ensures
        #[trigger] as_utf8(s, spec_take_not_cr_or_lf(s)) matches Outcome::Done(_, t) ==> on_one_line(t),
{
    lemma_span_bound(s, ByteClass::NotCrOrLf);
    let n = span(s, ByteClass::NotCrOrLf) as int;
    let b = s.take(n);
    assert forall|j: int| 0 <= j < b.len() implies !is_cr_or_lf(#[trigger] b[j]) by {
        lemma_span_prefix(s, ByteClass::NotCrOrLf, j);
    }
    if valid_utf8(b) {
        lemma_decode_on_one_line(b);
    }
}

/// The text that a command holds, where it is the rest of its line.
pub open spec fn text_on_one_line(c: CommandModel) -> bool {
    match c {
        CommandModel::Comment(t) => on_one_line(t),
        CommandModel::Category(t) => on_one_line(t),
        CommandModel::File(t) => on_one_line(t),
        CommandModel::Data(t) => on_one_line(t),
        _ => true,
    }
}

pub open spec fn command_on_one_line(o: Outcome<CommandModel>) -> bool {
    o matches Outcome::Done(_, c) ==> text_on_one_line(c)
}

proof fn lemma_meta_cmd_on_one_line(s: Seq<u8>)
    ensures
        command_on_one_line(spec_meta_cmd(s)),
{
    broadcast use lemma_rest_of_line_on_one_line;

    assert(command_on_one_line(spec_category(s)));
    assert(command_on_one_line(spec_keywords(s)));
    assert(command_on_one_line(spec_meta_colour(s)));
    assert(command_on_one_line(spec_meta_file(s)));
    assert(command_on_one_line(spec_meta_nofile(s)));
    assert(command_on_one_line(spec_meta_data(s)));
    assert(command_on_one_line(spec_meta_base_64_data(s)));
    assert(command_on_one_line(spec_comment(s)));
}

proof fn lemma_command_on_one_line(s: Seq<u8>, line_type: Seq<u8>)
    ensures
        command_on_one_line(spec_command(s, line_type)),
{
    if line_type == seq![48u8] {
        lemma_meta_cmd_on_one_line(s);
    } else if line_type == seq![49u8] {
        assert(command_on_one_line(spec_file_ref_cmd(s)));
    } else if line_type == seq![50u8] {
        assert(command_on_one_line(spec_line_cmd(s)));
    } else if line_type == seq![51u8] {
        assert(command_on_one_line(spec_tri_cmd(s)));
    } else if line_type == seq![52u8] {
        assert(command_on_one_line(spec_quad_cmd(s)));
    } else if line_type == seq![53u8] {
        assert(command_on_one_line(spec_opt_line_cmd(s)));
    }
}

/// The text of a comment, !CATEGORY, FILE or !DATA line holds no line break:
/// it ends where its line does.
pub proof fn law_text_ends_with_its_line(s: Seq<u8>)
    ensures
        spec_read_line(s) matches Outcome::Done(_, c) ==> text_on_one_line(c),
{
    reveal(spec_read_line);
    if let Outcome::Done(r1, a) = crate::bytes::spec_space_or_eol0(s) {
        if let Outcome::Done(r2, id) = crate::bytes::spec_read_cmd_id_str(r1) {
            lemma_command_on_one_line(r2, id);
        }
    }
}

} // verus!
