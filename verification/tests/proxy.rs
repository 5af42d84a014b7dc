use base64::Engine;
use hop_endpoint::head::{read_request_head, ReadEnd, MAX_REQ_HEAD_BYTES};
use hop_endpoint::limits::{RateLimiter, MAX_REQ_PER_WINDOW};
use hop_endpoint::proxy::{
    answer_request, proxy_reply, serve_http_proxy, translate, BackendReply, HttpMessage, ProxyStep,
};
use hop_endpoint::record::sign_well_known;
use hop_endpoint::source::Ip;

/// The address that dotted decimals name.
fn v4(text: &str) -> Option<Ip> {
    let parts: Vec<u8> = text.split('.').filter_map(|p| p.parse().ok()).collect();
    match parts.as_slice() {
        [a, b, c, d] => Some(Ip::V4(u32::from_be_bytes([*a, *b, *c, *d]))),
        _ => None,
    }
}

fn sent(m: HttpMessage) -> String {
    let mut bytes = m.head.into_bytes();
    bytes.extend_from_slice(&m.body);
    String::from_utf8_lossy(&bytes).into_owned()
}

/// Everything that a client of the proxy gets back, with an origin that answers by `origin_says`.
/// The origin panics where it must not be asked.
fn drive(
    request: &[u8],
    limiter: &mut RateLimiter,
    well_known: &[u8],
    origin_says: &dyn Fn(&str, &str) -> BackendReply,
    max_resp: u32,
) -> String {
    let cap = request.len().min(MAX_REQ_HEAD_BYTES as usize);
    let head = read_request_head(&request[..cap], ReadEnd::Eof);
    let step = serve_http_proxy(head.as_ref(), "http://127.0.0.1:1", well_known, limiter, 0);
    match step.expect("no counter is full") {
        ProxyStep::Reply(m) => sent(m),
        ProxyStep::Fetch { url, scheme, head_only } => {
            sent(proxy_reply(origin_says(&url, scheme), max_resp, head_only))
        }
    }
}

fn drive_proxy(
    request: &[u8],
    origin_says: &dyn Fn(&str, &str) -> BackendReply,
    max_resp: u32,
) -> String {
    drive(request, &mut RateLimiter::new(), b"", origin_says, max_resp)
}

fn never(_: &str, _: &str) -> BackendReply {
    panic!("the origin must not be asked")
}

fn answers(ctype: &str, body: &[u8]) -> BackendReply {
    BackendReply::Answered {
        status: 200,
        content_type: Some(ctype.to_string()),
        body: Some(body.to_vec()),
    }
}

#[test]
fn http_proxy_healthz_never_touches_the_origin() {
    let resp = drive_proxy(b"GET /healthz HTTP/1.1\r\nHost: x\r\n\r\n", &never, 1024);
    assert!(resp.starts_with("HTTP/1.1 200 OK"), "healthz => 200: {resp}");
    assert!(resp.trim_end().ends_with("ok"), "healthz body is ok: {resp}");
    assert_eq!(
        resp,
        "HTTP/1.1 200 OK\r\nContent-Type: text/plain\r\nContent-Length: 2\r\n\
         Connection: close\r\n\r\nok"
    );
}

#[test]
fn http_proxy_serves_the_signed_well_known_reach_record() {
    let record: Vec<u8> = (0u8..100).collect();
    let body = sign_well_known(&[9u8; 32], "wss://example.hopme.sh/", &record);
    let resp = drive(
        b"GET /.well-known/hop HTTP/1.1\r\nHost: x\r\n\r\n",
        &mut RateLimiter::new(),
        &body,
        &never,
        4096,
    );
    assert!(resp.starts_with("HTTP/1.1 200 OK"), "well-known => 200: {resp}");
    assert!(resp.contains("Content-Type: application/json"), "served as JSON: {resp}");
    let json = resp.split("\r\n\r\n").nth(1).unwrap_or("");
    let reach = json
        .split("\"reach\":\"")
        .nth(1)
        .and_then(|s| s.split('"').next())
        .expect("reach field present");
    let served = base64::engine::general_purpose::STANDARD
        .decode(reach)
        .expect("reach is base64");
    assert_eq!(served, record, "the served record is the signed one");
    assert!(json.contains("\"endpoint\":\"wss://example.hopme.sh/\""));
    let address = json
        .split("\"address\":\"")
        .nth(1)
        .and_then(|s| s.split('"').next())
        .expect("address field present");
    assert_eq!(bs58::decode(address).into_vec().unwrap(), vec![9u8; 32]);
}

#[test]
fn a_record_that_is_not_signed_yet_is_not_found() {
    let resp = drive_proxy(b"get /.well-known/hop HTTP/1.1\r\n\r\n", &never, 1024);
    assert_eq!(
        resp,
        "HTTP/1.1 404 Not Found\r\nContent-Type: text/plain\r\nContent-Length: 36\r\n\
         Connection: close\r\n\r\nhop-endpoint: reach record not ready"
    );
}

#[test]
fn http_proxy_rejects_non_get_head_with_405() {
    let resp = drive_proxy(
        b"POST /submit HTTP/1.1\r\nHost: x\r\nContent-Length: 0\r\n\r\n",
        &never,
        1024,
    );
    assert!(resp.starts_with("HTTP/1.1 405"), "POST over plain HTTP => 405: {resp}");
    assert!(resp.contains("only GET/HEAD"));
    assert_eq!(
        resp,
        "HTTP/1.1 405 \r\nContent-Type: text/plain; charset=utf-8\r\nContent-Length: 43\r\n\
         Connection: close\r\n\r\nhop-endpoint: only GET/HEAD over plain HTTP"
    );
}

#[test]
fn http_proxy_get_proxies_origin_body_and_head_omits_it() {
    let origin = |url: &str, scheme: &str| {
        assert_eq!(url, "http://127.0.0.1:1/r");
        assert_eq!(scheme, "https");
        answers("text/plain; charset=utf-8", b"BODY")
    };
    let get = drive_proxy(b"GET /r HTTP/1.1\r\nHost: x\r\n\r\n", &origin, 1024);
    assert!(get.starts_with("HTTP/1.1 200 OK"));
    assert!(get.contains("Content-Type: text/plain"));
    assert!(get.trim_end().ends_with("BODY"), "GET returns the body: {get}");

    let head = drive_proxy(b"HEAD /r HTTP/1.1\r\nHost: x\r\n\r\n", &origin, 1024);
    assert!(head.starts_with("HTTP/1.1 200 OK"), "HEAD status: {head}");
    assert!(
        head.contains("Content-Length: 4"),
        "HEAD still advertises the length: {head}"
    );
    assert!(
        !head.trim_end().ends_with("BODY"),
        "HEAD must not send the body: {head}"
    );
    assert_eq!(format!("{head}BODY"), get);
}

#[test]
fn a_head_of_an_own_path_goes_to_the_origin() {
    let origin = |url: &str, _: &str| {
        assert_eq!(url, "http://127.0.0.1:1/healthz");
        answers("text/plain", b"theirs")
    };
    let resp = drive_proxy(b"HEAD /healthz HTTP/1.1\r\n\r\n", &origin, 1024);
    assert!(resp.contains("Content-Length: 6"));
}

#[test]
fn http_proxy_502s_when_origin_unreachable() {
    let resp = drive_proxy(
        b"GET /r HTTP/1.1\r\nHost: x\r\n\r\n",
        &|_, _| BackendReply::Unreachable,
        1024,
    );
    assert!(resp.starts_with("HTTP/1.1 502"), "dead origin => 502: {resp}");
    assert!(resp.ends_with("\r\n\r\nhop-endpoint: backend unreachable"));
}

#[test]
fn http_proxy_rate_limits_on_the_real_client_ip_from_xff() {
    let mut limiter = RateLimiter::new();
    let ip = v4("198.51.100.42").unwrap();
    for _ in 0..MAX_REQ_PER_WINDOW {
        assert!(limiter.allow_source(ip, 0));
    }
    let req = b"GET /r HTTP/1.1\r\nHost: x\r\nX-Forwarded-For: 198.51.100.42\r\n\r\n";
    let resp = drive(req, &mut limiter, b"", &never, 1024);
    assert!(
        resp.starts_with("HTTP/1.1 429"),
        "an over-budget XFF client is rate-limited before the origin: {resp}"
    );
    assert!(resp.contains("rate limited"));
    assert_eq!(
        resp,
        "HTTP/1.1 429 Too Many Requests\r\nContent-Type: text/plain\r\nContent-Length: 26\r\n\
         Connection: close\r\n\r\nhop-endpoint: rate limited"
    );
    // The endpoint still says that it is up, and no budget is drawn on for that.
    let before = limiter.requests_in_window(ip, 0);
    let up = b"GET /healthz HTTP/1.1\r\nX-Forwarded-For: 198.51.100.42\r\n\r\n";
    assert!(drive(up, &mut limiter, b"", &never, 1024).starts_with("HTTP/1.1 200 OK"));
    assert_eq!(limiter.requests_in_window(ip, 0), before);
    // Another client is not held up.
    let other = b"GET /r HTTP/1.1\r\nX-Forwarded-For: 198.51.100.42, 198.51.100.43\r\n\r\n";
    let resp = drive(other, &mut limiter, b"", &|_, _| answers("a/b", b"x"), 1024);
    assert!(resp.starts_with("HTTP/1.1 200 OK"));
}

#[test]
fn serve_http_proxy_rejects_an_oversized_header_head_with_431_not_oom() {
    let mut request = b"GET / HTTP/1.1\r\nX-Bloat: ".to_vec();
    request.resize(request.len() + 128 * 8 * 1024, b'A');
    let resp = drive_proxy(&request, &never, 8 * 1024 * 1024);
    assert!(resp.contains("431"), "oversized head is shed with 431");
    assert!(!resp.contains("502"));
    assert_eq!(
        resp,
        "HTTP/1.1 431 Request Header Fields Too Large\r\nContent-Type: text/plain\r\n\
         Content-Length: 36\r\nConnection: close\r\n\r\nhop-endpoint: request head too large"
    );
}

#[test]
fn http_proxy_truncates_a_body_over_max_resp() {
    let resp = drive_proxy(
        b"GET /big HTTP/1.1\r\nHost: x\r\n\r\n",
        &|_, _| answers("application/octet-stream", &vec![9u8; 5000]),
        100,
    );
    assert!(resp.starts_with("HTTP/1.1 200 OK"), "status passes through: {resp}");
    assert!(
        resp.contains("Content-Length: 100"),
        "the body is truncated to the max_resp cap: {resp}"
    );
}

#[test]
fn a_reply_without_a_readable_type_or_body_gets_defaults() {
    let t = translate(
        BackendReply::Answered { status: 204, content_type: None, body: None },
        10,
    );
    assert_eq!(t.status, 204);
    assert_eq!(t.content_type, "application/octet-stream");
    assert!(t.body.is_empty());
}

#[test]
fn the_client_is_the_address_that_the_last_hop_writes() {
    let mut limiter = RateLimiter::new();
    let get = |hop: &str| format!("GET /r HTTP/1.1\r\nX-Forwarded-For: 9.9.9.9, {hop}\r\n\r\n");
    let origin = |_: &str, _: &str| answers("a/b", b"x");
    for hop in ["192.0.2.1", "2001:db8::ff", "192.0.2.1:80", "unknown", "192.0.2.256"] {
        drive(get(hop).as_bytes(), &mut limiter, b"", &origin, 10);
    }
    assert_eq!(limiter.requests_in_window(Ip::V4(0xc000_0201), 0), 1);
    assert_eq!(
        limiter.requests_in_window(Ip::V6(0x2001_0db8_0000_0000_0000_0000_0000_00ff), 0),
        1
    );
    assert_eq!(limiter.requests_in_window(Ip::V4(0x0909_0909), 0), 0);
}

#[test]
fn a_known_client_is_charged_only_where_the_head_names_a_hop() {
    let mut limiter = RateLimiter::new();
    let ip = v4("198.51.100.1");
    let head = read_request_head(b"GET /r HTTP/1.1\r\n\r\n", ReadEnd::Eof);
    answer_request(head.as_ref(), ip, "o", b"", &mut limiter, 0);
    answer_request(None, ip, "o", b"", &mut limiter, 0);
    assert_eq!(limiter.requests_in_window(ip.unwrap(), 0), 0);
    let head = read_request_head(b"GET /r HTTP/1.1\nX-Forwarded-For: x\n\n", ReadEnd::Eof);
    answer_request(head.as_ref(), ip, "o", b"", &mut limiter, 0);
    assert_eq!(limiter.requests_in_window(ip.unwrap(), 0), 1);
}

#[test]
fn a_body_of_exactly_the_cap_is_whole() {
    let t = translate(answers("a/b", &[1, 2, 3]), 3);
    assert_eq!(t.body, vec![1, 2, 3]);
    let t = translate(answers("a/b", &[1, 2, 3]), 0);
    assert!(t.body.is_empty());
}

#[test]
fn a_response_has_five_lines_and_then_its_body() {
    let resp = drive_proxy(
        b"GET /n HTTP/1.1\r\n\r\n",
        &|_, _| BackendReply::Answered {
            status: 404,
            content_type: Some("text/html".to_string()),
            body: Some(b"gone".to_vec()),
        },
        1024,
    );
    let lines: Vec<&str> = resp.split("\r\n").collect();
    assert_eq!(
        lines,
        vec![
            "HTTP/1.1 404 ",
            "Content-Type: text/html",
            "Content-Length: 4",
            "Connection: close",
            "",
            "gone"
        ]
    );
}
