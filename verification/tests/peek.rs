use hop_endpoint::bearer::bearer_ws_config;
use hop_endpoint::head::{read_request_head, ReadEnd};
use hop_endpoint::limits::RateLimiter;
use hop_endpoint::peek::{
    classify_head, PeekKind, PeekStep, Peeked, Peeker, PEEK_ATTEMPTS, PEEK_BUFFER_BYTES,
};
use hop_endpoint::proxy::{serve_http_proxy, ProxyStep};

/// What peeking decides where the peeks give these bytes, and then the last of them again and
/// again.
fn peek_kind(peeks: &[Option<&[u8]>]) -> PeekKind {
    let mut peeker = Peeker::new();
    for attempt in 0..PEEK_ATTEMPTS as usize {
        let peeked = match peeks[attempt.min(peeks.len() - 1)] {
            Some(b) => Peeked::Bytes(&b[..b.len().min(PEEK_BUFFER_BYTES)]),
            None => Peeked::Waiting,
        };
        match peeker.on_peek(peeked) {
            PeekStep::Done(kind) | PeekStep::GiveUp(kind) => return kind,
            PeekStep::Again => {}
        }
    }
    panic!("peeking ends")
}

#[test]
fn classify_head_handles_a_ws_handshake_split_across_tcp_segments() {
    assert_eq!(
        classify_head(b"GET / HTTP/1.1\r\nHost: x\r\n"),
        None,
        "an incomplete head with no terminator and no token is undecided (peek again)"
    );
    assert_eq!(
        classify_head(
            b"GET / HTTP/1.1\r\nHost: x\r\nUpgrade: websocket\r\nConnection: Upgrade\r\n\r\n"
        ),
        Some(PeekKind::WsUpgrade),
        "once Upgrade: websocket is seen the split handshake is classified as WS"
    );
    assert_eq!(
        classify_head(b"GET /page HTTP/1.1\r\nHost: x\r\n\r\n"),
        Some(PeekKind::HttpProxy),
        "a complete header block with no upgrade token is a plain HTTP request"
    );
    assert_eq!(
        classify_head(b"GET / HTTP/1.1\r\nUPGRADE: WEBSOCKET\r\n\r\n"),
        Some(PeekKind::WsUpgrade),
        "the upgrade token is matched case-insensitively"
    );
}

#[test]
fn classify_head_reads_through_bytes_that_are_no_text() {
    let heads: [&[u8]; 8] = [
        b"\xffupgrade: websocket\xfe",
        b"\xe2\x82upgrade: websocket",
        b"upgrade: web\xffsocket",
        b"\xf0\x9f\n\n",
        b"\n\xc3\n",
        b"\r\n\r\n",
        b"\r\n\r",
        b"",
    ];
    for head in heads {
        let text = String::from_utf8_lossy(head).to_ascii_lowercase();
        let expected = if text.contains("upgrade: websocket") {
            Some(PeekKind::WsUpgrade)
        } else if text.contains("\r\n\r\n") || text.contains("\n\n") {
            Some(PeekKind::HttpProxy)
        } else {
            None
        };
        assert_eq!(classify_head(head), expected);
    }
}

#[test]
fn peek_kind_classifies_a_segmented_ws_upgrade_over_a_real_socket() {
    let one = b"GET / HTTP/1.1\r\nHost: x\r\n";
    let mut both = one.to_vec();
    both.extend_from_slice(b"Upgrade: websocket\r\nConnection: Upgrade\r\n\r\n");
    assert_eq!(
        peek_kind(&[Some(one), Some(one), Some(one), Some(&both)]),
        PeekKind::WsUpgrade,
        "a WS handshake split across TCP segments is still classified as an upgrade"
    );
}

#[test]
fn peek_kind_reports_empty_on_a_bare_tcp_probe() {
    assert_eq!(peek_kind(&[Some(b"")]), PeekKind::Empty, "a bare probe is Empty");
}

#[test]
fn peek_kind_falls_back_to_http_proxy_for_bytes_without_a_terminator() {
    assert_eq!(
        peek_kind(&[Some(b"GET /partial HTTP/1.1\r\nHost: x\r\n")]),
        PeekKind::HttpProxy,
        "bytes with no terminator fall back to the HTTP proxy, not a hang"
    );
}

#[test]
fn peek_kind_guesses_http_proxy_when_the_peek_buffer_fills_undecided() {
    let mut blob = Vec::new();
    blob.extend_from_slice(b"GET /");
    blob.resize(4096, b'a');
    let mut peeker = Peeker::new();
    assert_eq!(
        peeker.on_peek(Peeked::Bytes(&blob[..PEEK_BUFFER_BYTES])),
        PeekStep::Done(PeekKind::HttpProxy),
        "a full buffer with no decision falls back to HttpProxy"
    );
}

#[test]
fn peek_kind_reports_empty_when_the_peer_connects_but_stalls() {
    assert_eq!(
        peek_kind(&[None]),
        PeekKind::Empty,
        "a connected-but-silent peer times out to Empty rather than hanging"
    );
}

#[test]
fn a_peek_that_fails_ends_in_a_guess() {
    let mut peeker = Peeker::new();
    assert_eq!(peeker.on_peek(Peeked::Failed), PeekStep::Done(PeekKind::Empty));
    let mut peeker = Peeker::new();
    assert_eq!(peeker.on_peek(Peeked::Bytes(b"G")), PeekStep::Again);
    assert_eq!(peeker.on_peek(Peeked::Waiting), PeekStep::Again);
    assert_eq!(peeker.on_peek(Peeked::Failed), PeekStep::Done(PeekKind::HttpProxy));
    let mut peeker = Peeker::new();
    assert_eq!(peeker.on_peek(Peeked::Bytes(b"G")), PeekStep::Again);
    assert_eq!(peeker.on_peek(Peeked::Bytes(b"")), PeekStep::Done(PeekKind::Empty));
}

#[test]
fn serve_conn_routes_a_plain_http_request_to_the_reverse_proxy() {
    let request = b"GET /healthz HTTP/1.1\r\nHost: x\r\n\r\n";
    assert_eq!(peek_kind(&[Some(request)]), PeekKind::HttpProxy);
    let head = read_request_head(request, ReadEnd::Eof);
    let mut limiter = RateLimiter::new();
    match serve_http_proxy(head.as_ref(), "http://127.0.0.1:1", b"", &mut limiter, 0) {
        Some(ProxyStep::Reply(m)) => assert!(m.head.starts_with("HTTP/1.1 200 OK")),
        _ => panic!("the origin must not be asked"),
    }
}

#[test]
fn serve_conn_returns_on_a_bare_probe_without_serving() {
    let mut peeker = Peeker::new();
    assert_eq!(
        peeker.on_peek(Peeked::Bytes(b"")),
        PeekStep::Done(PeekKind::Empty),
        "a bare probe surfaces no events"
    );
}

#[test]
fn serve_conn_returns_when_the_websocket_handshake_is_invalid() {
    let request =
        b"GET / HTTP/1.1\r\nHost: x\r\nUpgrade: websocket\r\nConnection: Upgrade\r\n\r\n";
    assert_eq!(peek_kind(&[Some(request)]), PeekKind::WsUpgrade);
    let stream = std::io::Cursor::new(request.to_vec());
    assert!(
        tungstenite::accept_with_config(stream, Some(bearer_ws_config())).is_err(),
        "an invalid WS handshake surfaces no link"
    );
}
