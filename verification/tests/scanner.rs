use ley::{Content, Error, Ley, LeyLine, Span};

fn piece<'a>(input: &'a [u8], sp: Span) -> &'a [u8] {
    &input[sp.start..sp.end]
}

fn parse_err(input: &Vec<u8>) -> Error {
    match Ley::parse(input) {
        Ok(_) => panic!("expected an error"),
        Err(e) => e,
    }
}

fn text_span(content: &Content) -> Span {
    match content {
        Content::Text(sp) => *sp,
        Content::Nested(_) => panic!("expected text content"),
    }
}

fn nested<'a>(content: &'a Content) -> &'a Vec<LeyLine> {
    match content {
        Content::Nested(v) => v,
        Content::Text(_) => panic!("expected nested content"),
    }
}

#[test]
fn single_text_block() {
    let input: Vec<u8> = b"!name:struct[text]".to_vec();
    let ley = Ley::parse(&input).unwrap();
    assert_eq!(ley.lines.len(), 1);
    let line = &ley.lines[0];
    assert_eq!(piece(&input, line.name), b"name");
    assert_eq!(piece(&input, line.structure), b"struct");
    assert_eq!(piece(&input, text_span(&line.content)), b"text");
}

#[test]
fn widened_fences_same_result() {
    let narrow: Vec<u8> = b"!name:struct[text]".to_vec();
    let wide: Vec<u8> = b"!!!name:::struct[[[text]]]".to_vec();
    let a = Ley::parse(&narrow).unwrap();
    let b = Ley::parse(&wide).unwrap();
    assert_eq!(a.lines.len(), 1);
    assert_eq!(b.lines.len(), 1);
    assert_eq!(piece(&narrow, a.lines[0].name), piece(&wide, b.lines[0].name));
    assert_eq!(
        piece(&narrow, a.lines[0].structure),
        piece(&wide, b.lines[0].structure)
    );
    assert_eq!(
        piece(&narrow, text_span(&a.lines[0].content)),
        piece(&wide, text_span(&b.lines[0].content))
    );
}

#[test]
fn text_may_hold_shorter_runs() {
    let input: Vec<u8> = b"!n:s[[a]b]]".to_vec();
    let ley = Ley::parse(&input).unwrap();
    assert_eq!(ley.lines.len(), 1);
    assert_eq!(piece(&input, text_span(&ley.lines[0].content)), b"a]b");
}

#[test]
fn name_may_hold_shorter_terminator_runs() {
    // with a double-colon fence, single colons and semicolons are name text
    let input: Vec<u8> = b"!!a:b;c::s[x]".to_vec();
    let ley = Ley::parse(&input).unwrap();
    assert_eq!(ley.lines.len(), 1);
    assert_eq!(piece(&input, ley.lines[0].name), b"a:b;c");
    assert_eq!(piece(&input, ley.lines[0].structure), b"s");
}

#[test]
fn comment_block_elided() {
    let input: Vec<u8> = b"!name;struct[text]".to_vec();
    let ley = Ley::parse(&input).unwrap();
    assert_eq!(ley.lines.len(), 0);
}

#[test]
fn comment_between_blocks_elided() {
    let input: Vec<u8> = b"!a:s[x] !b;s[skipped] !c:s[y]".to_vec();
    let ley = Ley::parse(&input).unwrap();
    assert_eq!(ley.lines.len(), 2);
    assert_eq!(piece(&input, ley.lines[0].name), b"a");
    assert_eq!(piece(&input, ley.lines[1].name), b"c");
}

#[test]
fn nested_blocks() {
    let input: Vec<u8> = b"!name:struct{ !inner:s2[x] }".to_vec();
    let ley = Ley::parse(&input).unwrap();
    assert_eq!(ley.lines.len(), 1);
    let inner = nested(&ley.lines[0].content);
    assert_eq!(inner.len(), 1);
    assert_eq!(piece(&input, inner[0].name), b"inner");
    assert_eq!(piece(&input, inner[0].structure), b"s2");
    assert_eq!(piece(&input, text_span(&inner[0].content)), b"x");
}

#[test]
fn nested_comment_elided() {
    let input: Vec<u8> = b"!o:s{ !a;s2[gone] !b:s2[kept] }".to_vec();
    let ley = Ley::parse(&input).unwrap();
    let inner = nested(&ley.lines[0].content);
    assert_eq!(inner.len(), 1);
    assert_eq!(piece(&input, inner[0].name), b"b");
}

#[test]
fn empty_nested_content() {
    let input: Vec<u8> = b"!n:s{{}}".to_vec();
    let ley = Ley::parse(&input).unwrap();
    assert_eq!(nested(&ley.lines[0].content).len(), 0);
}

#[test]
fn name_fence_never_completed() {
    // the name fence opens with two bangs but no double colon ever comes
    let input: Vec<u8> = b"!!name:struct[text]".to_vec();
    assert_eq!(parse_err(&input), Error::UnexpectedEoF);
}

#[test]
fn text_fence_never_completed() {
    // the text fence opens with two brackets but closes with only one
    let input: Vec<u8> = b"!name:struct[[text]".to_vec();
    assert_eq!(parse_err(&input), Error::UnexpectedEoF);
}

#[test]
fn brace_fence_never_closed() {
    let input: Vec<u8> = b"!name:struct{ !a:b[x]".to_vec();
    assert_eq!(parse_err(&input), Error::UnexpectedEoF);
}

#[test]
fn brace_fence_closed_wrongly() {
    let input: Vec<u8> = b"!n:s{{}]".to_vec();
    assert_eq!(parse_err(&input), Error::InvalidLeyLine);
}

#[test]
fn empty_input_empty_document() {
    let input: Vec<u8> = b"".to_vec();
    let ley = Ley::parse(&input).unwrap();
    assert_eq!(ley.lines.len(), 0);
}

#[test]
fn whitespace_only_empty_document() {
    let input: Vec<u8> = b" \t\r\n  ".to_vec();
    let ley = Ley::parse(&input).unwrap();
    assert_eq!(ley.lines.len(), 0);
}

#[test]
fn reparsing_is_deterministic() {
    let input: Vec<u8> = b"!a:s[x] !b:s2{ !c:s3[y] }".to_vec();
    let first = Ley::parse(&input).unwrap();
    let second = Ley::parse(&input).unwrap();
    assert_eq!(first.lines, second.lines);
}

#[test]
fn not_a_block_is_invalid() {
    let input: Vec<u8> = b"abc".to_vec();
    assert_eq!(parse_err(&input), Error::InvalidLeyLine);
}

#[test]
fn bang_run_to_end_is_eof() {
    let input: Vec<u8> = b"!!!".to_vec();
    assert_eq!(parse_err(&input), Error::UnexpectedEoF);
}

#[test]
fn missing_content_opener_is_eof() {
    let input: Vec<u8> = b"!name:struct".to_vec();
    assert_eq!(parse_err(&input), Error::UnexpectedEoF);
}

#[test]
fn structure_name_is_trimmed() {
    let input: Vec<u8> = b"!n:  padded str  [x]".to_vec();
    let ley = Ley::parse(&input).unwrap();
    assert_eq!(piece(&input, ley.lines[0].structure), b"padded str");
}

#[test]
fn empty_name_is_allowed() {
    let input: Vec<u8> = b"!:s[x]".to_vec();
    let ley = Ley::parse(&input).unwrap();
    assert_eq!(piece(&input, ley.lines[0].name), b"");
}

#[test]
fn leftmost_close_leaves_excess() {
    // the closing run is longer than the fence: only the first two
    // brackets close it, the rest stays in the stream
    let input: Vec<u8> = b"!n:s[[x]]]".to_vec();
    let mut pos: usize = 0;
    let line = LeyLine::parse(&input, &mut pos).unwrap().unwrap();
    assert_eq!(piece(&input, text_span(&line.content)), b"x");
    assert_eq!(pos, 9);
    assert_eq!(input[pos], b']');
}

#[test]
fn line_parse_advances_past_comment() {
    let input: Vec<u8> = b"!c;s[x]rest".to_vec();
    let mut pos: usize = 0;
    let parsed = LeyLine::parse(&input, &mut pos).unwrap();
    assert!(parsed.is_none());
    assert_eq!(&input[pos..], b"rest");
}

#[test]
fn content_parse_reads_text() {
    let input: Vec<u8> = b"[abc]".to_vec();
    let mut pos: usize = 0;
    let content = Content::parse(&input, &mut pos).unwrap();
    assert_eq!(piece(&input, text_span(&content)), b"abc");
    assert_eq!(pos, 5);
}

#[test]
fn content_parse_empty_input_is_eof() {
    let input: Vec<u8> = b"".to_vec();
    let mut pos: usize = 0;
    assert_eq!(
        Content::parse(&input, &mut pos).unwrap_err(),
        Error::UnexpectedEoF
    );
    assert_eq!(pos, 0);
}

#[test]
fn lookup_on_parsed_document_is_none() {
    let input: Vec<u8> = b"!a:s[x]".to_vec();
    let ley = Ley::parse(&input).unwrap();
    assert!(ley.lookup(&b"s".to_vec()).is_none());
}
