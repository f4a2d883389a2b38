use weldr::bytes::{is_cr_or_lf, is_space, sp, tag_no_case};
use weldr::meta::{category, meta_base_64_data};
use weldr::number::{color_id, float, from_hex, is_hex_digit, read_vec3};
use weldr::parse::{ignored_line, read_line};
use weldr::colour::glitter_material;
use weldr::geometry::{filename, line_cmd};
use weldr::{
    nom_error, parse_raw, Command, CommentCmd, Error, ErrorKind, ParseErr, ParseError,
};

fn text(cmds: &[Command]) -> Vec<String> {
    cmds.iter()
        .map(|c| match c {
            Command::Comment(c) => c.text.clone(),
            other => format!("{:?}", other),
        })
        .collect()
}

#[test]
fn byte_classes() {
    assert!(is_space(b' ') && is_space(b'\t'));
    assert!(!is_space(b'\n') && !is_space(b'a'));
    assert!(is_cr_or_lf(b'\r') && is_cr_or_lf(b'\n') && !is_cr_or_lf(b' '));
    assert!(is_hex_digit(b'0') && is_hex_digit(b'f') && is_hex_digit(b'F'));
    assert!(!is_hex_digit(b'g') && !is_hex_digit(b'G') && !is_hex_digit(b' '));
}

#[test]
fn tags_without_case() {
    assert_eq!(tag_no_case(b"cHrOmE x", b"CHROME"), Ok((&b" x"[..], &b"cHrOmE"[..])));
    assert_eq!(tag_no_case(b"CHROM", b"CHROME"), Err(nom_error(&b"CHROM"[..], ErrorKind::Tag)));
}

#[test]
fn spaces_are_required_where_the_grammar_asks() {
    assert_eq!(sp(b"x"), Err(nom_error(&b"x"[..], ErrorKind::Space)));
    assert_eq!(sp(b" \tx"), Ok((&b"x"[..], &b" \t"[..])));
}

#[test]
fn numbers_keep_their_text() {
    let (rest, n) = float(b"-7.25e2 x").unwrap();
    assert_eq!(rest, b" x");
    assert_eq!(n.text, b"-7.25e2".to_vec());
    assert_eq!(float(b"x"), Err(nom_error(&b"x"[..], ErrorKind::Float)));
    assert_eq!(read_vec3(b"1 2"), Err(nom_error(&b""[..], ErrorKind::Space)));
}

fn number_text(i: &[u8]) -> (Vec<u8>, Vec<u8>) {
    let (rest, n) = float(i).unwrap();
    (n.text, rest.to_vec())
}

#[test]
fn the_grammar_of_numbers() {
    assert_eq!(number_text(b"1.5 x"), (b"1.5".to_vec(), b" x".to_vec()));
    assert_eq!(number_text(b"-.5e-2"), (b"-.5e-2".to_vec(), b"".to_vec()));
    assert_eq!(number_text(b"+3."), (b"+3.".to_vec(), b"".to_vec()));
    assert_eq!(number_text(b"1.x"), (b"1.".to_vec(), b"x".to_vec()));
    assert_eq!(number_text(b"12E+3,"), (b"12E+3".to_vec(), b",".to_vec()));
    assert_eq!(number_text(b"InFinity"), (b"InF".to_vec(), b"inity".to_vec()));
    assert_eq!(number_text(b"nAn 1"), (b"nAn".to_vec(), b" 1".to_vec()));
    assert_eq!(float(b".x"), Err(nom_error(&b".x"[..], ErrorKind::Float)));
    assert_eq!(float(b"+nan"), Err(nom_error(&b"+nan"[..], ErrorKind::Float)));
    assert_eq!(float(b"-"), Err(nom_error(&b"-"[..], ErrorKind::Float)));
    assert_eq!(float(b"2e+"), Err(ParseErr::Failure(&b"2e+"[..], ErrorKind::Float)));
}

#[test]
fn any_run_of_spaces_and_tabs_separates_tokens() {
    let plain = line_cmd(b"16 1 1 0 0.9239 1 0.3827");
    let spaced = line_cmd(b"16\t1  1 \t0\t\t0.9239 1 0.3827");
    assert!(plain.is_ok());
    assert_eq!(plain, spaced);
    let (rest, a) = sp(b" \t \tx").unwrap();
    assert_eq!((rest, a), (&b"x"[..], &b" \t \t"[..]));
}

fn kind_of<T>(r: Result<T, ParseErr<'_>>) -> Option<ErrorKind> {
    match r {
        Ok(_) => None,
        Err(ParseErr::Error(_, k)) => Some(k),
        Err(ParseErr::Failure(_, k)) => Some(k),
    }
}

#[test]
fn spacing_never_changes_a_line_command() {
    let (rest1, c1) = line_cmd(b"16 1 1 0 0.9239 1 0.3827 x y").unwrap();
    let (rest2, c2) = line_cmd(b"16\t1 1 0  0.9239 1 0.3827\t x  y").unwrap();
    assert_eq!(c1, c2);
    assert_eq!((rest1, rest2), (&b"x y"[..], &b"x  y"[..]));
    let bad1 = line_cmd(b"16 1 1 0 x 1 1");
    let bad2 = line_cmd(b"16  1 1 0 x\t1 1");
    assert_eq!(kind_of(bad1), Some(ErrorKind::Float));
    assert_eq!(kind_of(bad2), Some(ErrorKind::Float));
    assert_eq!(kind_of(line_cmd(b" 16 1 1 0 0 1 1")), Some(ErrorKind::Digit));
}

#[test]
fn glitter_keywords_in_any_case_with_every_part() {
    let a = glitter_material(b"GLITTER VALUE #FF0000 ALPHA 128 LUMINANCE 5 FRACTION 0.5 VFRACTION 0.2 MINSIZE 1 MAXSIZE 3 rest");
    let b = glitter_material(b"gLiTtEr\tvalue #FF0000  ALPHA 128 LUMINANCE\t5 Fraction 0.5 vfraction\t0.2 MINSIZE 1  MAXSIZE 3 rest");
    assert_eq!(a, b);
    assert_eq!(a.unwrap().0, b" rest");
    let bad1 = glitter_material(b"GLITTER VALUE #FF00 FRACTION 0.5");
    let bad2 = glitter_material(b"glitter  value #FF00 fraction 0.5");
    assert_eq!(kind_of(bad1), kind_of(bad2));
    assert!(kind_of(glitter_material(b"GLITTER VALUE #FF00 FRACTION 0.5")).is_some());
}

#[test]
fn material_keywords_are_read_in_any_case() {
    let upper = glitter_material(b"GLITTER VALUE #123456 FRACTION 1.0 VFRACTION 0.3 SIZE 1");
    let mixed = glitter_material(b"glitter Value #123456 fraction 1.0 vFraction 0.3 SIZE 1");
    let tabs = glitter_material(b"Glitter\tvalue  #123456\tFraction 1.0 \tvfraction 0.3\t SIZE\t1");
    assert!(upper.is_ok());
    assert_eq!(upper, mixed);
    assert_eq!(upper, tabs);
    // SIZE is matched with its case.
    assert!(glitter_material(b"GLITTER VALUE #123456 FRACTION 1.0 VFRACTION 0.3 size 1").is_err());
}

#[test]
fn a_number_cut_short_stops_the_parse() {
    assert_eq!(
        float(b"1e x"),
        Err(ParseErr::Failure(&b"1e x"[..], ErrorKind::Float))
    );
    let content = b"0 first\n2 16 1e 0 0 1 1 1\n0 last";
    assert_eq!(
        parse_raw(content),
        Err(Error::Parse(ParseError {
            filename: String::new(),
            kind: ErrorKind::Float,
            remaining: b"1e 0 0 1 1 1\n0 last".len(),
        }))
    );
}

#[test]
fn text_that_is_not_utf8_is_refused() {
    assert_eq!(
        category(b"!CATEGORY \xff\xfe"),
        Err(nom_error(&b"\xff\xfe"[..], ErrorKind::MapRes))
    );
    // The line is then read as a comment, which is refused as well.
    assert_eq!(
        read_line(b"0 !CATEGORY \xff"),
        Err(nom_error(&b"!CATEGORY \xff"[..], ErrorKind::MapRes))
    );
}

#[test]
fn file_names_lose_unicode_whitespace() {
    assert_eq!(
        filename("\u{a0} part.dat \u{3000}\n".as_bytes()),
        Ok((&b"\n"[..], "part.dat"))
    );
}

#[test]
fn base64_data_is_decoded() {
    let (rest, c) = meta_base_64_data(b"!: AAEC/w").unwrap();
    assert_eq!(rest, b"");
    match c {
        Command::Base64Data(d) => assert_eq!(d.data, vec![0u8, 1, 2, 255]),
        other => panic!("unexpected {:?}", other),
    }
    // Padding is refused by this engine.
    assert_eq!(
        meta_base_64_data(b"!: AAE="),
        Err(nom_error(&b"AAE="[..], ErrorKind::MapRes))
    );
    // Such a line is then a comment.
    assert_eq!(
        read_line(b"0 !: AAE="),
        Ok((&b""[..], Command::Comment(CommentCmd::new("!: AAE="))))
    );
}

#[test]
fn unknown_line_types_are_refused() {
    assert_eq!(read_line(b"7 foo"), Err(nom_error(&b"foo"[..], ErrorKind::Switch)));
    assert_eq!(read_line(b"01 foo"), Err(nom_error(&b"foo"[..], ErrorKind::Switch)));
    assert_eq!(read_line(b"   "), Err(nom_error(&b""[..], ErrorKind::Digit)));
}

#[test]
fn a_file_is_one_command_per_line() {
    let cmds = parse_raw(b"0 first\r\n0 second\n0 third").unwrap();
    assert_eq!(text(&cmds), vec!["first", "second", "third"]);
    // The first command, then those of the rest of the file.
    let rest = parse_raw(b"\r\n0 second\n0 third").unwrap();
    assert_eq!(text(&cmds[1..]), text(&rest));
}

#[test]
fn blank_lines_have_no_effect() {
    let plain = parse_raw(b"0 a\n0 b").unwrap();
    let blank = parse_raw(b" \t\r\n\n  \n0 a\n0 b").unwrap();
    assert_eq!(plain, blank);
    assert_eq!(text(&blank), vec!["a", "b"]);
    let between = parse_raw(b"0 a\n\n   \n\t\n0 b\n\n").unwrap();
    assert_eq!(text(&between), vec!["a", "b"]);
}

#[test]
fn lines_of_invalid_line_type_are_ignored() {
    assert_eq!(parse_raw(b"7 foo\n0 bar"), Ok(vec![Command::Comment(CommentCmd::new("bar"))]));
    let cmds = parse_raw(b"0 a\n9 x\n0 b").unwrap();
    assert_eq!(text(&cmds), vec!["a", "b"]);
    assert_eq!(
        parse_raw(b"0 a\r\n7 x y z\r\n0 b"),
        Ok(vec![
            Command::Comment(CommentCmd::new("a")),
            Command::Comment(CommentCmd::new("b")),
        ])
    );
    // "01" and "10" are not line types either; a last line is skipped too.
    let cmds = parse_raw(b"01 x\n  10\t1 2 3\n0 c\n6").unwrap();
    assert_eq!(text(&cmds), vec!["c"]);
    assert_eq!(ignored_line(b" \n7 x y\r\n0 b"), Some(&b"\r\n0 b"[..]));
    assert_eq!(ignored_line(b"0 b"), None);
    assert_eq!(ignored_line(b"x"), None);
    assert_eq!(parse_raw(b""), Ok(vec![]));
}

#[test]
fn reading_ends_at_a_line_that_cannot_be_read() {
    let cmds = parse_raw(b"0 a\n2 16 x\n0 b").unwrap();
    assert_eq!(text(&cmds), vec!["a"]);
    let cmds = parse_raw(b"0 a\nx\n0 b").unwrap();
    assert_eq!(text(&cmds), vec!["a"]);
}

#[test]
fn unix_and_dos_line_endings_read_alike() {
    let dos = parse_raw(b"0 Name: x.dat\r\n1 16 0 0 0 1 0 0 0 1 0 0 0 1 y.dat\r\n").unwrap();
    let unix = parse_raw(b"0 Name: x.dat\n1 16 0 0 0 1 0 0 0 1 0 0 0 1 y.dat\n").unwrap();
    assert_eq!(dos, unix);
    assert_eq!(dos.len(), 2);
}

#[test]
fn line_ends_read_alike_even_where_reading_fails() {
    let dos = parse_raw(b"0 a\r\n2 16 1e 0 0 0 0 0\r\n0 b");
    let unix = parse_raw(b"0 a\n2 16 1e 0 0 0 0 0\n0 b");
    match (dos, unix) {
        (Err(Error::Parse(d)), Err(Error::Parse(u))) => {
            assert_eq!(d.kind, ErrorKind::Float);
            assert_eq!(u.kind, ErrorKind::Float);
            assert_eq!(d.remaining, u.remaining + 1);
        }
        other => panic!("unexpected {:?}", other),
    }
    let dos = parse_raw(b"0 !COLOUR X CODE 1 VALUE #000000 EDGE #000000\r\n  \r\n7 x\r\n3 16 0 0 0 1 1 1 2 2 2").unwrap();
    let unix = parse_raw(b"0 !COLOUR X CODE 1 VALUE #000000 EDGE #000000\n  \n7 x\n3 16 0 0 0 1 1 1 2 2 2").unwrap();
    assert_eq!(dos, unix);
    assert_eq!(dos.len(), 2);
}

#[test]
fn a_colour_name_that_runs_to_its_line_end_takes_the_line_break() {
    let dos = parse_raw(b"0 !COLOUR X\r\n0 CODE 1 VALUE #000000 EDGE #000000").unwrap();
    let unix = parse_raw(b"0 !COLOUR X\n0 CODE 1 VALUE #000000 EDGE #000000").unwrap();
    match (&dos[0], &unix[0]) {
        (Command::Colour(d), Command::Colour(u)) => {
            assert_eq!(d.name, "X\r\n0");
            assert_eq!(u.name, "X\n0");
        }
        other => panic!("unexpected {:?}", other),
    }
}

#[test]
fn meta_commands_fall_back_to_comments() {
    assert_eq!(
        read_line(b"0 !COLOUR Broken CODE x"),
        Ok((&b""[..], Command::Comment(CommentCmd::new("!COLOUR Broken CODE x"))))
    );
    assert_eq!(
        read_line(b"0 NOFILE\n"),
        Ok((&b"\n"[..], Command::NoFile))
    );
}

#[test]
fn colour_names_end_at_a_space_only() {
    let (rest, c) = weldr::colour::meta_colour(b"!COLOUR a\nb CODE 1 VALUE #000000 EDGE #000000").unwrap();
    assert_eq!(rest, b"");
    match c {
        Command::Colour(c) => {
            assert_eq!(c.name, "a\nb");
            assert_eq!(c.code, 1);
        }
        other => panic!("unexpected {:?}", other),
    }
}

#[test]
fn decimal_numbers_are_bounded() {
    assert_eq!(color_id(b"4294967295"), Ok((&b""[..], u32::MAX)));
    assert_eq!(color_id(b"4294967296"), Err(nom_error(&b"4294967296"[..], ErrorKind::MapRes)));
    assert_eq!(color_id(b"0007x"), Ok((&b"x"[..], 7)));
}

#[test]
fn hexadecimal_allows_a_plus_sign() {
    assert_eq!(from_hex(b"+f"), Ok(15));
    assert_eq!(from_hex(b"+"), Err(ErrorKind::AlphaNumeric));
    assert_eq!(from_hex(b""), Err(ErrorKind::AlphaNumeric));
    assert_eq!(from_hex(b"-1"), Err(ErrorKind::AlphaNumeric));
}
