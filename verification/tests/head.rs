use hop_endpoint::head::{
    read_request_head, HeadParser, HeadStep, ReadEnd, RequestHead, MAX_REQ_HEAD_BYTES,
};

/// Reads a head from the first `cap` bytes.
fn capped(raw: &[u8], cap: u64) -> Option<RequestHead> {
    read_request_head(&raw[..raw.len().min(cap as usize)], ReadEnd::Eof)
}

#[test]
fn read_request_head_rejects_an_oversized_header_block_instead_of_growing_unbounded() {
    let hostile_len = (MAX_REQ_HEAD_BYTES as usize) * 4;
    let mut hostile = Vec::with_capacity(hostile_len + 32);
    hostile.extend_from_slice(b"GET / HTTP/1.1\r\nX-Bloat: ");
    hostile.resize(hostile.len() + hostile_len, b'A');
    assert!(
        capped(&hostile, MAX_REQ_HEAD_BYTES).is_none(),
        "an oversized header block is rejected (shed), not read unbounded into memory"
    );

    let mut giant_line = Vec::new();
    giant_line.extend_from_slice(b"GET /");
    giant_line.resize(giant_line.len() + hostile_len, b'a');
    assert!(
        capped(&giant_line, MAX_REQ_HEAD_BYTES).is_none(),
        "an oversized request line is rejected, not grown without bound"
    );

    let ok = b"GET /path HTTP/1.1\r\nHost: x\r\nX-Forwarded-For: 9.9.9.9\r\n\r\n".to_vec();
    let head = capped(&ok, MAX_REQ_HEAD_BYTES).expect("a normal head parses");
    assert!(head.method.eq_ignore_ascii_case("GET"));
    assert_eq!(head.raw_path, "/path");
    assert_eq!(head.xff.as_deref(), Some("9.9.9.9"), "XFF still captured");
}

#[test]
fn read_request_head_returns_none_on_an_empty_reader() {
    assert!(
        capped(b"", MAX_REQ_HEAD_BYTES).is_none(),
        "an empty read yields no request head"
    );
}

#[test]
fn read_request_head_serves_complete_lines_then_eof_without_a_blank_line() {
    let head = capped(b"GET /page HTTP/1.1\r\nHost: example\r\n", MAX_REQ_HEAD_BYTES)
        .expect("complete lines are served on EOF");
    assert!(head.method.eq_ignore_ascii_case("GET"));
    assert_eq!(head.raw_path, "/page");
    assert!(head.xff.is_none(), "no X-Forwarded-For present");
}

#[test]
fn read_request_head_stops_gracefully_on_a_header_read_error() {
    let head = read_request_head(b"GET /x HTTP/1.1\r\n", ReadEnd::Fault)
        .expect("the request line still parses");
    assert!(head.method.eq_ignore_ascii_case("GET"));
    assert_eq!(head.raw_path, "/x");
}

#[test]
fn read_request_head_rejects_a_request_line_with_no_newline() {
    assert!(
        capped(b"GET /no-newline", 64).is_none(),
        "a request line with no newline is shed"
    );
}

#[test]
fn read_request_head_rejects_a_truncated_header_line() {
    let mut raw = b"GET / HTTP/1.1\r\nX-Long: ".to_vec();
    raw.resize(raw.len() + 200, b'z');
    assert!(
        capped(&raw, 64).is_none(),
        "a header line truncated by the cap is shed"
    );
}

#[test]
fn read_request_head_captures_x_forwarded_for() {
    let raw =
        b"GET /p HTTP/1.1\r\nHost: h\r\nX-Forwarded-For: 1.1.1.1, 2.2.2.2\r\nAccept: */*\r\n\r\n";
    let head = capped(raw, MAX_REQ_HEAD_BYTES).expect("a well-formed head parses");
    assert_eq!(head.raw_path, "/p");
    assert_eq!(
        head.xff.as_deref(),
        Some("2.2.2.2"),
        "the last (trusted) XFF hop is captured"
    );
}

#[test]
fn the_last_forwarded_for_header_counts() {
    let raw = b"GET / HTTP/1.1\nx-forwarded-for: 1.1.1.1\n X-FORWARDED-FOR : ,\n\nignored: 1\n";
    let head = capped(raw, 1000).unwrap();
    assert_eq!(head.xff, None);
    let raw = b"GET / HTTP/1.1\nX-Forwarded-For: 1.1.1.1\nX-Forwarded-For: 2.2.2.2:80\n\n";
    assert_eq!(capped(raw, 1000).unwrap().xff.as_deref(), Some("2.2.2.2:80"));
}

#[test]
fn missing_words_have_defaults() {
    let head = capped(b"\r\n\r\n", 1000).unwrap();
    assert_eq!(head.method, "");
    assert_eq!(head.raw_path, "/");
    let head = capped(b"  GET\n", 1000).unwrap();
    assert_eq!(head.method, "GET");
    assert_eq!(head.raw_path, "/");
    let head = capped("GET\u{2003}/a\u{a0}b\r\n".as_bytes(), 1000).unwrap();
    assert_eq!(head.raw_path, "/a");
}

#[test]
fn what_follows_the_blank_line_is_not_read() {
    let raw = b"GET /a HTTP/1.1\r\n\r\nX-Forwarded-For: 1.1.1.1\r\nno end";
    let head = capped(raw, 1000).unwrap();
    assert_eq!(head.xff, None);
}

#[test]
fn a_line_that_is_no_text_ends_the_head() {
    assert!(capped(b"GET /\xff HTTP/1.1\r\n\r\n", 1000).is_none());
    let raw = b"GET /a HTTP/1.1\r\nA: \xff\r\nX-Forwarded-For: 1.1.1.1\r\n\r\n";
    let head = capped(raw, 1000).unwrap();
    assert_eq!(head.raw_path, "/a");
    assert_eq!(head.xff, None);
    let raw = "GET /\u{e9} HTTP/1.1\r\n\r\n".as_bytes();
    assert_eq!(capped(raw, 1000).unwrap().raw_path, "/\u{e9}");
}

#[test]
fn a_head_that_is_cut_inside_a_character_is_shed() {
    assert!(capped(b"G\n\xc3", 1000).is_none());
    assert!(capped(b"GET / HTTP/1.1\r\nA: \xff", 1000).is_none());
    let mut raw = b"GET / HTTP/1.1\r\nXY: ".to_vec();
    while raw.len() <= MAX_REQ_HEAD_BYTES as usize {
        raw.extend_from_slice("\u{20ac}".as_bytes());
    }
    let cut = &raw[..MAX_REQ_HEAD_BYTES as usize];
    assert!(String::from_utf8(cut.to_vec()).is_err());
    assert!(capped(&raw, MAX_REQ_HEAD_BYTES).is_none());
    // A line that could not be read to its end is no line that was cut off.
    assert!(read_request_head(b"G\n\xc3", ReadEnd::Fault).is_some());
}

#[test]
fn a_parser_takes_one_line_at_a_time() {
    let mut parser = HeadParser::new();
    assert!(matches!(parser.feed(Some(b"GET /a HTTP/1.1\r\n")), HeadStep::More));
    assert!(matches!(parser.feed(Some(b"X-Forwarded-For: 1.1.1.1\r\n")), HeadStep::More));
    match parser.feed(Some(b"\r\n")) {
        HeadStep::Done(Some(head)) => {
            assert_eq!(head.method, "GET");
            assert_eq!(head.raw_path, "/a");
            assert_eq!(head.xff.as_deref(), Some("1.1.1.1"));
        }
        _ => panic!("a blank line ends the head"),
    }
}
