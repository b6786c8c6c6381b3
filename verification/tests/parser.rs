use ley::{Content, Error, Parser, Span};

fn piece<'a>(input: &'a [u8], sp: Span) -> &'a [u8] {
    &input[sp.start..sp.end]
}

fn doc_err(input: &Vec<u8>) -> Error {
    match Parser::new(input).parse() {
        Ok(_) => panic!("expected an error"),
        Err(e) => e,
    }
}

#[test]
fn expect_consumes_pattern() {
    let input: Vec<u8> = b"abc".to_vec();
    let mut p = Parser::new(&input);
    assert!(p.expect(&b"ab".to_vec()).is_ok());
    assert!(p.expect(&b"c".to_vec()).is_ok());
}

#[test]
fn expect_rejects_mismatch() {
    let input: Vec<u8> = b"abc".to_vec();
    let mut p = Parser::new(&input);
    assert_eq!(p.expect(&b"x".to_vec()).unwrap_err(), Error::InvalidLeyLine);
    // the cursor did not move
    assert!(p.expect(&b"abc".to_vec()).is_ok());
}

#[test]
fn expect_many_counts_the_run() {
    let input: Vec<u8> = b"aaab".to_vec();
    let mut p = Parser::new(&input);
    assert_eq!(p.expect_many(b'a').unwrap(), 3);
    assert!(p.expect(&b"b".to_vec()).is_ok());
}

#[test]
fn expect_many_needs_a_run() {
    let input: Vec<u8> = b"bbb".to_vec();
    let mut p = Parser::new(&input);
    assert_eq!(p.expect_many(b'a').unwrap_err(), Error::InvalidLeyLine);
}

#[test]
fn expect_many_run_to_end_is_eof() {
    let input: Vec<u8> = b"aaa".to_vec();
    let mut p = Parser::new(&input);
    assert_eq!(p.expect_many(b'a').unwrap_err(), Error::UnexpectedEoF);
}

#[test]
fn expect_many_empty_is_eof() {
    let input: Vec<u8> = b"".to_vec();
    let mut p = Parser::new(&input);
    assert_eq!(p.expect_many(b'a').unwrap_err(), Error::UnexpectedEoF);
}

#[test]
fn until_stops_at_character() {
    let input: Vec<u8> = b"xy{z".to_vec();
    let mut p = Parser::new(&input);
    let sp = p.until(b'{').unwrap();
    assert_eq!(piece(&input, sp), b"xy");
    // the cursor is left at the character itself
    assert!(p.expect(&b"{z".to_vec()).is_ok());
}

#[test]
fn until_missing_character_is_eof() {
    let input: Vec<u8> = b"xyz".to_vec();
    let mut p = Parser::new(&input);
    assert_eq!(p.until(b'{').unwrap_err(), Error::UnexpectedEoF);
}

#[test]
fn content_between_equal_runs() {
    let input: Vec<u8> = b"aa this is an apple bb rest".to_vec();
    let mut p = Parser::new(&input);
    let sp = p.content_between(b'a', b'b').unwrap();
    assert_eq!(piece(&input, sp), b" this is an apple ");
    assert!(p.expect(&b" rest".to_vec()).is_ok());
}

#[test]
fn content_between_takes_leftmost_close() {
    let input: Vec<u8> = b"[[x]]]y".to_vec();
    let mut p = Parser::new(&input);
    let sp = p.content_between(b'[', b']').unwrap();
    assert_eq!(piece(&input, sp), b"x");
    // the extra bracket of the longer closing run is left in the stream
    assert!(p.expect(&b"]y".to_vec()).is_ok());
}

#[test]
fn content_between_needs_an_opening_run() {
    let input: Vec<u8> = b"x[y]".to_vec();
    let mut p = Parser::new(&input);
    assert_eq!(
        p.content_between(b'[', b']').unwrap_err(),
        Error::InvalidLeyLine
    );
}

#[test]
fn content_between_opening_run_to_end_is_eof() {
    let input: Vec<u8> = b"[[[[".to_vec();
    let mut p = Parser::new(&input);
    assert_eq!(
        p.content_between(b'[', b']').unwrap_err(),
        Error::UnexpectedEoF
    );
}

#[test]
fn content_between_unclosed_is_eof() {
    let input: Vec<u8> = b"[[xy]".to_vec();
    let mut p = Parser::new(&input);
    assert_eq!(
        p.content_between(b'[', b']').unwrap_err(),
        Error::UnexpectedEoF
    );
}

#[test]
fn parse_reads_whole_documents() {
    let input: Vec<u8> = b"!name:struct[text] !b:s2{ !c:s3[y] }".to_vec();
    let ley = Parser::new(&input).parse().unwrap();
    assert_eq!(ley.lines.len(), 2);
    assert_eq!(piece(&input, ley.lines[0].name), b"name");
    assert_eq!(piece(&input, ley.lines[0].structure), b"struct");
    match &ley.lines[0].content {
        Content::Text(sp) => assert_eq!(piece(&input, *sp), b"text"),
        Content::Nested(_) => panic!("expected text content"),
    }
    assert_eq!(piece(&input, ley.lines[1].name), b"b");
    match &ley.lines[1].content {
        Content::Nested(inner) => {
            assert_eq!(inner.len(), 1);
            assert_eq!(piece(&input, inner[0].name), b"c");
        }
        Content::Text(_) => panic!("expected nested content"),
    }
}

#[test]
fn parse_agrees_with_ley_parse() {
    let input: Vec<u8> = b"!a:s[x] !b;s[skipped] !c:s2{ !d:s3[y] }".to_vec();
    let from_parser = Parser::new(&input).parse().unwrap();
    let from_ley = ley::Ley::parse(&input).unwrap();
    assert_eq!(from_parser.lines, from_ley.lines);
}

#[test]
fn parse_elides_comments() {
    let input: Vec<u8> = b"!c;s[x]".to_vec();
    let ley = Parser::new(&input).parse().unwrap();
    assert_eq!(ley.lines.len(), 0);
}

#[test]
fn parse_rejects_stray_braced_text() {
    // `{` opens nested content, so bare text inside braces is no block
    let input: Vec<u8> = b"!a:s{t}".to_vec();
    assert_eq!(doc_err(&input), Error::InvalidLeyLine);
}

#[test]
fn parse_empty_input() {
    let input: Vec<u8> = b"  ".to_vec();
    let ley = Parser::new(&input).parse().unwrap();
    assert_eq!(ley.lines.len(), 0);
}

#[test]
fn parse_unclosed_is_eof() {
    let input: Vec<u8> = b"!name:struct[text".to_vec();
    assert_eq!(doc_err(&input), Error::UnexpectedEoF);
}
