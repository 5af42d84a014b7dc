//! The plain HTTP side: what a request is answered, and what is fetched from the origin for it.

use vstd::prelude::*;
use vstd::utf8::encode_utf8;

use crate::head::{HeadSpec, RequestHead};
use crate::limits::{counted, is_allowed, recorded, RateLimiter, WindowSpec};
use crate::source::{ip_written, parse_ip, Ip};
use crate::target::{
    fetched, fetched_url, law_only_the_origin_is_fetched, path, path_of, scheme_and_authority,
    scheme_at,
};
use crate::text::{
    decimal, digit_char, first_at, lemma_decimal_value, lemma_first_at, lemma_first_at_is, lower,
    push_decimal, same_text, same_text_any_case,
};

verus! {

broadcast use vstd::string::group_string_axioms;

/// An HTTP response: its status line and headers, and the bytes that follow them.
pub struct HttpMessage {
    pub head: String,
    pub body: Vec<u8>,
}

/// A response as text and bytes.
#[verifier::ext_equal]
pub struct MessageSpec {
    pub head: Seq<char>,
    pub body: Seq<u8>,
}

impl View for HttpMessage {
    type V = MessageSpec;

    open spec fn view(&self) -> MessageSpec {
        MessageSpec { head: self.head@, body: self.body@ }
    }
}

/// The status line and the headers of a response. Every response closes the connection.
pub open spec fn response_head(code: Seq<char>, ctype: Seq<char>, len: nat) -> Seq<char> {
    "HTTP/1.1 "@ + code + "\r\nContent-Type: "@ + ctype + "\r\nContent-Length: "@ + decimal(len)
        + "\r\nConnection: close\r\n\r\n"@
}

/// A whole response.
pub open spec fn message(code: Seq<char>, ctype: Seq<char>, body: Seq<u8>) -> MessageSpec {
    MessageSpec { head: response_head(code, ctype, body.len()), body }
}

/// A response that says `text` and nothing else.
pub open spec fn says(code: Seq<char>, text: Seq<char>) -> MessageSpec {
    message(code, "text/plain"@, encode_utf8(text))
}

fn head_of(code: &str, ctype: &str, len: u64) -> (r: String)
    ensures
        r@ == response_head(code@, ctype@, len as nat),
{
    let mut s = String::from_str("HTTP/1.1 ").concat(code).concat("\r\nContent-Type: ").concat(
        ctype,
    ).concat("\r\nContent-Length: ");
    push_decimal(&mut s, len);
    s.concat("\r\nConnection: close\r\n\r\n")
}

fn say(code: &str, text: &str) -> (r: HttpMessage)
    ensures
        r@ == says(code@, text@),
{
    let body = text.as_bytes_vec();
    HttpMessage { head: head_of(code, "text/plain", body.len() as u64), body }
}

/// What the origin came back with.
pub enum BackendReply {
    /// A response. The content type is missing where there is none that is text, and the body
    /// where reading it failed.
    Answered { status: u16, content_type: Option<String>, body: Option<Vec<u8>> },
    /// No response.
    Unreachable,
}

/// A response on its way back to a client.
pub struct Translated {
    pub status: u16,
    pub content_type: String,
    pub body: Vec<u8>,
}

/// A translated response as text and bytes.
#[verifier::ext_equal]
pub struct TranslatedSpec {
    pub status: u16,
    pub content_type: Seq<char>,
    pub body: Seq<u8>,
}

impl View for Translated {
    type V = TranslatedSpec;

    open spec fn view(&self) -> TranslatedSpec {
        TranslatedSpec {
            status: self.status,
            content_type: self.content_type@,
            body: self.body@,
        }
    }
}

/// A response of the endpoint's own.
pub open spec fn own(status: u16, text: Seq<char>) -> TranslatedSpec {
    TranslatedSpec {
        status,
        content_type: "text/plain; charset=utf-8"@,
        body: encode_utf8(text),
    }
}

/// A response of the endpoint's own, as it is sent.
pub fn own_reply(status: u16, text: &str) -> (r: Translated)
    ensures
        r@ == own(status, text@),
{
    Translated {
        status,
        content_type: String::from_str("text/plain; charset=utf-8"),
        body: text.as_bytes_vec(),
    }
}

/// The first `n` bytes, or all of them where there are no more.
pub open spec fn capped(body: Seq<u8>, n: nat) -> Seq<u8> {
    if body.len() > n {
        body.take(n as int)
    } else {
        body
    }
}

/// What a client gets of the origin's reply: the status, the content type and the body, cut to
/// the cap; and where the origin could not be reached, that it could not.
pub open spec fn translated(reply: BackendReply, max_resp: u32) -> TranslatedSpec {
    match reply {
        BackendReply::Answered { status, content_type, body } => TranslatedSpec {
            status,
            content_type: match content_type {
                Some(t) => t@,
                None => "application/octet-stream"@,
            },
            body: match body {
                Some(b) => capped(b@, max_resp as nat),
                None => Seq::empty(),
            },
        },
        BackendReply::Unreachable => own(502, "hop-endpoint: backend unreachable"@),
    }
}

/// Translates the origin's reply.
pub fn translate(reply: BackendReply, max_resp: u32) -> (r: Translated)
    ensures
        r@ == translated(reply, max_resp),
{
    match reply {
        BackendReply::Answered { status, content_type, body } => {
            let content_type = match content_type {
                Some(t) => t,
                None => String::from_str("application/octet-stream"),
            };
            let mut bytes = match body {
                Some(b) => b,
                None => Vec::new(),
            };
            if bytes.len() > max_resp as usize {
                bytes.truncate(max_resp as usize);
            }
            Translated { status, content_type, body: bytes }
        },
        BackendReply::Unreachable => own_reply(502, "hop-endpoint: backend unreachable"),
    }
}

/// The code and the reason in a status line. Only success has a reason.
pub open spec fn status_text(status: u16) -> Seq<char> {
    decimal(status as nat) + " "@ + (if status == 200 {
        "OK"@
    } else {
        ""@
    })
}

/// The response to a request. One that only wants the head is told the length of the body, and
/// gets none of it.
pub open spec fn proxied(reply: TranslatedSpec, head_only: bool) -> MessageSpec {
    let whole = message(status_text(reply.status), reply.content_type, reply.body);
    if head_only {
        MessageSpec { head: whole.head, body: Seq::empty() }
    } else {
        whole
    }
}

fn send_back(reply: Translated, head_only: bool) -> (r: HttpMessage)
    ensures
        r@ == proxied(reply@, head_only),
{
    let mut code = String::new();
    push_decimal(&mut code, reply.status as u64);
    let code = code.concat(" ").concat(
        if reply.status == 200 {
            "OK"
        } else {
            ""
        },
    );
    assert(code@ =~= status_text(reply.status));
    let head = head_of(code.as_str(), reply.content_type.as_str(), reply.body.len() as u64);
    if head_only {
        HttpMessage { head, body: Vec::new() }
    } else {
        HttpMessage { head, body: reply.body }
    }
}

/// Answers a request from what the origin came back with.
pub fn proxy_reply(reply: BackendReply, max_resp: u32, head_only: bool) -> (r: HttpMessage)
    ensures
        r@ == proxied(translated(reply, max_resp), head_only),
{
    send_back(translate(reply, max_resp), head_only)
}

/// What is to be done for a request.
pub enum ProxyStep {
    /// Send this, and close.
    Reply(HttpMessage),
    /// Get this URL from the origin, with word of the scheme that the client used, and answer
    /// with what comes back.
    Fetch { url: String, scheme: &'static str, head_only: bool },
}

/// What is to be done for a request, as text and bytes.
pub enum ProxySpec {
    Reply(MessageSpec),
    Fetch { url: Seq<char>, scheme: Seq<char>, head_only: bool },
}

impl View for ProxyStep {
    type V = ProxySpec;

    open spec fn view(&self) -> ProxySpec {
        match *self {
            ProxyStep::Reply(m) => ProxySpec::Reply(m@),
            ProxyStep::Fetch { url, scheme, head_only } => ProxySpec::Fetch {
                url: url@,
                scheme: scheme@,
                head_only,
            },
        }
    }
}

/// Methods are compared without regard to ASCII case.
pub open spec fn is_method(method: Seq<char>, name: Seq<char>) -> bool {
    lower(method) == lower(name)
}

/// The requests that the endpoint answers by itself.
pub open spec fn is_own(head: HeadSpec) -> bool {
    is_method(head.method, "GET"@) && (path(head.raw_path) == "/healthz"@ || path(head.raw_path)
        == "/.well-known/hop"@)
}

fn answers_itself(head: &RequestHead) -> (r: bool)
    ensures
        r == is_own(head@),
{
    let path_only = path_of(head.raw_path.as_str());
    same_text_any_case(head.method.as_str(), "GET") && (same_text(path_only.as_str(), "/healthz")
        || same_text(path_only.as_str(), "/.well-known/hop"))
}

/// What the endpoint answers by itself: that it is up, or its reach record, which is empty until
/// it has first been signed.
pub open spec fn own_answer(head: HeadSpec, well_known: Seq<u8>) -> MessageSpec {
    if path(head.raw_path) == "/healthz"@ {
        says("200 OK"@, "ok"@)
    } else if well_known.len() == 0 {
        says("404 Not Found"@, "hop-endpoint: reach record not ready"@)
    } else {
        message("200 OK"@, "application/json"@, well_known)
    }
}

/// The decision on a request. `within` tells whether its client is within its budget.
pub open spec fn proxy_step(
    head: Option<HeadSpec>,
    origin: Seq<char>,
    well_known: Seq<u8>,
    within: bool,
) -> ProxySpec {
    match head {
        None => ProxySpec::Reply(
            says(
                "431 Request Header Fields Too Large"@,
                "hop-endpoint: request head too large"@,
            ),
        ),
        Some(h) => if is_own(h) {
            ProxySpec::Reply(own_answer(h, well_known))
        } else if !within {
            ProxySpec::Reply(says("429 Too Many Requests"@, "hop-endpoint: rate limited"@))
        } else if is_method(h.method, "GET"@) || is_method(h.method, "HEAD"@) {
            ProxySpec::Fetch {
                url: fetched(origin, h.raw_path),
                scheme: "https"@,
                head_only: is_method(h.method, "HEAD"@),
            }
        } else {
            ProxySpec::Reply(
                proxied(own(405, "hop-endpoint: only GET/HEAD over plain HTTP"@), false),
            )
        },
    }
}

/// The client whose budget a request draws on: the one that the head names, where it names one,
/// unless the endpoint answers by itself.
pub open spec fn charged(head: Option<HeadSpec>, client: Option<Ip>) -> Option<Ip> {
    match head {
        Some(h) if !is_own(h) && h.xff is Some => client,
        _ => None,
    }
}

/// The head behind an optional reference to one.
pub open spec fn head_of_request(head: Option<&RequestHead>) -> Option<HeadSpec> {
    match head {
        Some(h) => Some(h@),
        None => None,
    }
}

/// The client that a head names: the address that the last hop of its forwarded-for header
/// writes, where there is one and it writes one.
pub open spec fn client_of(head: Option<HeadSpec>) -> Option<Ip> {
    match head {
        Some(h) => match h.xff {
            Some(text) => ip_written(text),
            None => None,
        },
        None => None,
    }
}

/// Whether the client that is charged, if any, is within its budget.
pub open spec fn is_within(m: Map<Ip, WindowSpec>, charged: Option<Ip>, now: nat) -> bool {
    match charged {
        Some(ip) => is_allowed(m, ip, now),
        None => true,
    }
}

/// Decides on a plain HTTP request of a client that is known. `head` is missing where it was too
/// large or nothing came, and `client` is the address that the hop named in the head writes, where
/// it writes one.
pub fn answer_request(
    head: Option<&RequestHead>,
    client: Option<Ip>,
    origin: &str,
    well_known: &[u8],
    limiter: &mut RateLimiter,
    now: u64,
) -> (r: ProxyStep)
    requires
        charged(head_of_request(head), client) matches Some(ip) ==> counted(
            old(limiter)@,
            ip,
            now as nat,
        ) < u32::MAX,
    ensures
        ({
            let h = head_of_request(head);
            let ip = charged(h, client);
            &&& r@ == proxy_step(
                h,
                origin@,
                well_known@,
                is_within(old(limiter)@, ip, now as nat),
            )
            &&& final(limiter)@ == match ip {
                Some(ip) => recorded(old(limiter)@, ip, now as nat),
                None => old(limiter)@,
            }
        }),
{
    let h = match head {
        Some(h) => h,
        None => {
            return ProxyStep::Reply(
                say(
                    "431 Request Header Fields Too Large",
                    "hop-endpoint: request head too large",
                ),
            );
        },
    };
    let path_only = path_of(h.raw_path.as_str());
    let get = same_text_any_case(h.method.as_str(), "GET");
    if get && same_text(path_only.as_str(), "/healthz") {
        return ProxyStep::Reply(say("200 OK", "ok"));
    }
    if get && same_text(path_only.as_str(), "/.well-known/hop") {
        if well_known.len() == 0 {
            return ProxyStep::Reply(say("404 Not Found", "hop-endpoint: reach record not ready"));
        }
        let body = vstd::slice::slice_to_vec(well_known);
        let head = head_of("200 OK", "application/json", body.len() as u64);
        return ProxyStep::Reply(HttpMessage { head, body });
    }
    if h.xff.is_some() {
        match client {
            Some(ip) => {
                if !limiter.allow_source(ip, now) {
                    return ProxyStep::Reply(
                        say("429 Too Many Requests", "hop-endpoint: rate limited"),
                    );
                }
            },
            None => {},
        }
    }
    let head_only = same_text_any_case(h.method.as_str(), "HEAD");
    if !get && !head_only {
        let refused = own_reply(405, "hop-endpoint: only GET/HEAD over plain HTTP");
        return ProxyStep::Reply(send_back(refused, false));
    }
    ProxyStep::Fetch {
        url: fetched_url(origin, h.raw_path.as_str()),
        scheme: "https",
        head_only,
    }
}

/// Decides on a plain HTTP request, by the client that its head names. Nothing is decided, and
/// nothing counted, in the one case that the counter of the client that would be charged is full.
pub fn serve_http_proxy(
    head: Option<&RequestHead>,
    origin: &str,
    well_known: &[u8],
    limiter: &mut RateLimiter,
    now: u64,
) -> (r: Option<ProxyStep>)
    ensures
        ({
            let h = head_of_request(head);
            let ip = charged(h, client_of(h));
            let full = ip is Some && counted(old(limiter)@, ip->0, now as nat) == u32::MAX;
            &&& r is None <==> full
            &&& !full ==> r->0@ == proxy_step(
                h,
                origin@,
                well_known@,
                is_within(old(limiter)@, ip, now as nat),
            )
            &&& final(limiter)@ == if ip is Some && !full {
                recorded(old(limiter)@, ip->0, now as nat)
            } else {
                old(limiter)@
            }
        }),
{
    let client = match head {
        Some(h) => match &h.xff {
            Some(text) => parse_ip(text.as_str()),
            None => None,
        },
        None => None,
    };
    match client {
        Some(ip) => {
            if limiter.requests_in_window(ip, now) == u32::MAX {
                let own = match head {
                    Some(h) => answers_itself(h),
                    None => false,
                };
                if !own {
                    return None;
                }
            }
        },
        None => {},
    }
    Some(answer_request(head, client, origin, well_known, limiter, now))
}

/// What reaches the origin: only a request with a whole head, by a client within its budget, with
/// the method GET or HEAD, that the endpoint does not answer by itself. And what is fetched is the
/// origin with the path of the request, so it names the scheme and the authority of the origin.
pub proof fn law_what_reaches_the_origin(
    head: Option<HeadSpec>,
    origin: Seq<char>,
    well_known: Seq<u8>,
    within: bool,
)
    ensures
        proxy_step(head, origin, well_known, within) is Fetch <==> head is Some && within && !is_own(
            head->0,
        ) && (is_method(head->0.method, "GET"@) || is_method(head->0.method, "HEAD"@)),
        proxy_step(head, origin, well_known, within) matches ProxySpec::Fetch {
            url,
            scheme,
            head_only,
        } ==> {
            &&& url == fetched(origin, head->0.raw_path)
            &&& scheme_at(origin) is Some ==> scheme_and_authority(url) == scheme_and_authority(
                origin,
            )
        },
{
    if head is Some && scheme_at(origin) is Some {
        law_only_the_origin_is_fetched(origin, head->0.raw_path);
    }
}

/// The endpoint says that it is up, and hands out its record, to everyone: no budget is drawn on,
/// and neither the origin nor a budget that is used up makes a difference.
pub proof fn law_own_answers_are_for_everyone(
    head: HeadSpec,
    client: Option<Ip>,
    origin: Seq<char>,
    well_known: Seq<u8>,
    within: bool,
)
    requires
        is_own(head),
    ensures
        charged(Some(head), client) is None,
        proxy_step(Some(head), origin, well_known, within) == ProxySpec::Reply(
            own_answer(head, well_known),
        ),
{
}

/// A request by HEAD fetches what the same request by GET fetches, and is answered with the same
/// head and no body.
pub proof fn law_head_is_get_without_body(
    get: HeadSpec,
    head: HeadSpec,
    origin: Seq<char>,
    well_known: Seq<u8>,
    within: bool,
    reply: TranslatedSpec,
)
    requires
        is_method(get.method, "GET"@),
        is_method(head.method, "HEAD"@),
        head.raw_path == get.raw_path,
        !is_own(get),
    ensures
        match proxy_step(Some(get), origin, well_known, within) {
            ProxySpec::Fetch { url, scheme, head_only } => !head_only && proxy_step(
                Some(head),
                origin,
                well_known,
                within,
            ) == (ProxySpec::Fetch { url, scheme, head_only: true }),
            ProxySpec::Reply(m) => proxy_step(Some(head), origin, well_known, within)
                == ProxySpec::Reply(m),
        },
        proxied(reply, true).head == proxied(reply, false).head,
        proxied(reply, true).body == Seq::<u8>::empty(),
        proxied(reply, false).body == reply.body,
{
    reveal_strlit("GET");
    reveal_strlit("HEAD");
    assert(lower("GET"@).len() == 3 && lower("HEAD"@).len() == 4);
}

/// No more of the origin's body is handed on than the cap allows, and what is handed on is its
/// beginning.
pub proof fn law_body_within_cap(reply: BackendReply, max_resp: u32)
    ensures
        reply matches BackendReply::Answered { status, content_type, body } ==> {
            &&& translated(reply, max_resp).body.len() <= max_resp
            &&& body is Some ==> translated(reply, max_resp).body.is_prefix_of(body->0@)
            &&& body is Some && body->0@.len() <= max_resp ==> translated(reply, max_resp).body
                == body->0@
        },
{
}

/// The lines of a text, each without its line feed.
pub open spec fn lines(s: Seq<char>) -> Seq<Seq<char>>
    decreases s.len(),
{
    proof {
        lemma_first_at(s, '\n');
    }
    match first_at(s, '\n') {
        None => Seq::empty(),
        Some(i) => seq![s.take(i)] + lines(s.skip(i + 1)),
    }
}

proof fn lemma_lines_step(line: Seq<char>, after: Seq<char>)
    requires
        !line.contains('\n'),
    ensures
        lines(line.push('\n') + after) == seq![line] + lines(after),
{
    let s = line.push('\n') + after;
    let n = line.len() as int;
    assert forall|k: int| 0 <= k < n implies s[k] != '\n' by {
        assert(s[k] == line[k]);
    }
    lemma_first_at_is(s, '\n', n);
    assert(s.take(n) =~= line);
    assert(s.skip(n + 1) =~= after);
}

/// A client that splits a response at its line feeds finds the status, the content type, the
/// length, the end of the connection and the blank line, and nothing else: a content type of the
/// origin adds no header and does not end the head.
pub proof fn law_response_has_five_lines(code: Seq<char>, ctype: Seq<char>, len: nat)
    requires
        !code.contains('\n'),
        !ctype.contains('\n'),
    ensures
        lines(response_head(code, ctype, len)) == seq![
            "HTTP/1.1 "@ + code + seq!['\r'],
            "Content-Type: "@ + ctype + seq!['\r'],
            "Content-Length: "@ + decimal(len) + seq!['\r'],
            "Connection: close\r"@,
            seq!['\r'],
        ],
{
    reveal_strlit("HTTP/1.1 ");
    reveal_strlit("\r\nContent-Type: ");
    reveal_strlit("\r\nContent-Length: ");
    reveal_strlit("\r\nConnection: close\r\n\r\n");
    reveal_strlit("Content-Type: ");
    reveal_strlit("Content-Length: ");
    reveal_strlit("Connection: close\r");
    lemma_decimal_value(len);
    let l0 = "HTTP/1.1 "@ + code + seq!['\r'];
    let l1 = "Content-Type: "@ + ctype + seq!['\r'];
    let l2 = "Content-Length: "@ + decimal(len) + seq!['\r'];
    let l3 = "Connection: close\r"@;
    let l4 = seq!['\r'];
    let t5 = Seq::<char>::empty();
    let t4 = l4.push('\n') + t5;
    let t3 = l3.push('\n') + t4;
    let t2 = l2.push('\n') + t3;
    let t1 = l1.push('\n') + t2;
    let t0 = l0.push('\n') + t1;
    assert(t0 =~= response_head(code, ctype, len));
    assert(!l0.contains('\n'));
    assert(!l1.contains('\n'));
    assert(!l2.contains('\n'));
    assert(!l3.contains('\n'));
    assert(!l4.contains('\n'));
    lemma_lines_step(l0, t1);
    lemma_lines_step(l1, t2);
    lemma_lines_step(l2, t3);
    lemma_lines_step(l3, t4);
    lemma_lines_step(l4, t5);
    assert(lines(t5) =~= Seq::empty());
    assert(lines(t0) =~= seq![l0, l1, l2, l3, l4]);
}

/// True where a head announces a response with this code, this content type and a body of this
/// length, and the end of the connection, and nothing else.
pub open spec fn announces(head: Seq<char>, code: Seq<char>, ctype: Seq<char>, len: nat) -> bool {
    &&& lines(head) == seq![
        "HTTP/1.1 "@ + code + seq!['\r'],
        "Content-Type: "@ + ctype + seq!['\r'],
        "Content-Length: "@ + decimal(len) + seq!['\r'],
        "Connection: close\r"@,
        seq!['\r'],
    ]
    &&& head.len() > 0
    &&& head.last() == '\n'
}

proof fn lemma_announces(code: Seq<char>, ctype: Seq<char>, body: Seq<u8>)
    requires
        !code.contains('\n'),
        !ctype.contains('\n'),
    ensures
        announces(message(code, ctype, body).head, code, ctype, body.len()),
        message(code, ctype, body).body == body,
{
    reveal_strlit("\r\nConnection: close\r\n\r\n");
    law_response_has_five_lines(code, ctype, body.len());
    let head = message(code, ctype, body).head;
    assert(head.last() == "\r\nConnection: close\r\n\r\n"@.last());
}

proof fn lemma_three_digits(n: nat, s: Seq<char>)
    requires
        100 <= n < 1000,
        s.len() == 3,
        s[0] == digit_char(n / 100),
        s[1] == digit_char(n / 10 % 10),
        s[2] == digit_char(n % 10),
    ensures
        decimal(n) == s,
{
    assert(n / 10 / 10 == n / 100);
    assert(decimal(n / 100) =~= seq![s[0]]);
    assert(decimal(n / 10) =~= seq![s[0], s[1]]);
    assert(decimal(n) =~= s);
}

/// The methods are matched whole, in any case.
pub proof fn law_methods_are_matched_whole(method: Seq<char>)
    ensures
        is_method(method, "GET"@) <==> lower(method) == "get"@,
        is_method(method, "HEAD"@) <==> lower(method) == "head"@,
{
    reveal_strlit("GET");
    reveal_strlit("HEAD");
    reveal_strlit("get");
    reveal_strlit("head");
    assert(lower("GET"@) =~= "get"@);
    assert(lower("HEAD"@) =~= "head"@);
}

/// Every request gets its answer: too large a head is told so; the endpoint's own two paths are
/// answered by the endpoint, to a GET; a client over its budget is told so; any other GET or HEAD
/// goes to the origin, with the path it asked for, and any other method is refused.
pub proof fn law_every_request_gets_its_answer(
    head: HeadSpec,
    origin: Seq<char>,
    well_known: Seq<u8>,
    within: bool,
)
    ensures
        ({
            let step = proxy_step(Some(head), origin, well_known, within);
            let get = lower(head.method) == "get"@;
            let head_only = lower(head.method) == "head"@;
            let p = path(head.raw_path);
            let up = get && p == "/healthz"@;
            let record = get && p == "/.well-known/hop"@;
            let plain = "text/plain"@;
            let ok = encode_utf8("ok"@);
            let not_ready = encode_utf8("hop-endpoint: reach record not ready"@);
            let limited = encode_utf8("hop-endpoint: rate limited"@);
            let refused = encode_utf8("hop-endpoint: only GET/HEAD over plain HTTP"@);
            &&& up ==> (step matches ProxySpec::Reply(m) && m.body == ok && announces(
                m.head,
                "200 OK"@,
                plain,
                ok.len(),
            ))
            &&& record && well_known.len() > 0 ==> (step matches ProxySpec::Reply(m) && m.body
                == well_known && announces(
                m.head,
                "200 OK"@,
                "application/json"@,
                well_known.len(),
            ))
            &&& record && well_known.len() == 0 ==> (step matches ProxySpec::Reply(m) && m.body
                == not_ready && announces(m.head, "404 Not Found"@, plain, not_ready.len()))
            &&& !up && !record && !within ==> (step matches ProxySpec::Reply(m) && m.body == limited
                && announces(m.head, "429 Too Many Requests"@, plain, limited.len()))
            &&& !up && !record && within && (get || head_only) ==> step == (ProxySpec::Fetch {
                url: origin + p,
                scheme: "https"@,
                head_only,
            })
            &&& !up && !record && within && !get && !head_only ==> (step matches ProxySpec::Reply(m)
                && m.body == refused && announces(
                m.head,
                "405 "@,
                "text/plain; charset=utf-8"@,
                refused.len(),
            ))
        }),
{
    law_methods_are_matched_whole(head.method);
    reveal_strlit("text/plain");
    reveal_strlit("application/json");
    reveal_strlit("text/plain; charset=utf-8");
    reveal_strlit("200 OK");
    reveal_strlit("404 Not Found");
    reveal_strlit("429 Too Many Requests");
    reveal_strlit("405 ");
    reveal_strlit("405");
    reveal_strlit(" ");
    reveal_strlit("");
    reveal_strlit("/healthz");
    reveal_strlit("/.well-known/hop");
    lemma_three_digits(405, "405"@);
    assert(status_text(405) =~= "405 "@);
    lemma_announces("200 OK"@, "text/plain"@, encode_utf8("ok"@));
    lemma_announces("200 OK"@, "application/json"@, well_known);
    lemma_announces(
        "404 Not Found"@,
        "text/plain"@,
        encode_utf8("hop-endpoint: reach record not ready"@),
    );
    lemma_announces(
        "429 Too Many Requests"@,
        "text/plain"@,
        encode_utf8("hop-endpoint: rate limited"@),
    );
    lemma_announces(
        "405 "@,
        "text/plain; charset=utf-8"@,
        encode_utf8("hop-endpoint: only GET/HEAD over plain HTTP"@),
    );
}

/// Where there is no head to serve, the client is told that it was too large, and nothing is
/// fetched.
pub proof fn law_missing_head_is_told(origin: Seq<char>, well_known: Seq<u8>, within: bool)
    ensures
        ({
            let text = encode_utf8("hop-endpoint: request head too large"@);
            proxy_step(None, origin, well_known, within) matches ProxySpec::Reply(m) && m.body
                == text && announces(
                m.head,
                "431 Request Header Fields Too Large"@,
                "text/plain"@,
                text.len(),
            )
        }),
{
    reveal_strlit("431 Request Header Fields Too Large");
    reveal_strlit("text/plain");
    lemma_announces(
        "431 Request Header Fields Too Large"@,
        "text/plain"@,
        encode_utf8("hop-endpoint: request head too large"@),
    );
}

/// A client is charged for each request on which its head names it, but for a GET of the
/// endpoint's own two paths; and nobody else is charged.
pub proof fn law_who_is_charged(head: HeadSpec, client: Option<Ip>)
    ensures
        charged(Some(head), client) == if head.xff is Some && !(lower(head.method) == "get"@ && (
        path(head.raw_path) == "/healthz"@ || path(head.raw_path) == "/.well-known/hop"@)) {
            client
        } else {
            None
        },
        charged(None, client) is None,
        client_of(Some(head)) == if head.xff is Some {
            ip_written(head.xff->0)
        } else {
            None
        },
        client_of(None) is None,
        client matches Some(ip) ==> forall|m: Map<Ip, WindowSpec>, now: nat|
            is_within(m, client, now) == is_allowed(m, ip, now),
        forall|m: Map<Ip, WindowSpec>, now: nat| is_within(m, None, now),
{
    law_methods_are_matched_whole(head.method);
}

/// What the origin came back with reaches the client: the status, the content type, and the body
/// up to the cap, with its length announced; a HEAD gets everything but the body. Where the origin
/// could not be reached, the client is told so with 502.
pub proof fn law_reply_is_passed_on(reply: BackendReply, max_resp: u32, head_only: bool)
    requires
        reply matches BackendReply::Answered { status, content_type, body }
            ==> content_type is Some ==> !content_type->0@.contains('\n'),
    ensures
        ({
            let t = translated(reply, max_resp);
            let m = proxied(t, head_only);
            &&& m.body == if head_only {
                Seq::empty()
            } else {
                t.body
            }
            &&& match reply {
                BackendReply::Answered { status, content_type, body } => {
                    let ctype = if content_type is Some {
                        content_type->0@
                    } else {
                        "application/octet-stream"@
                    };
                    let whole = if body is Some {
                        body->0@
                    } else {
                        Seq::empty()
                    };
                    &&& t.status == status
                    &&& t.content_type == ctype
                    &&& t.body == if whole.len() <= max_resp {
                        whole
                    } else {
                        whole.take(max_resp as int)
                    }
                    &&& status == 200 ==> announces(m.head, "200 OK"@, ctype, t.body.len())
                    &&& status != 200 ==> announces(
                        m.head,
                        decimal(status as nat) + seq![' '],
                        ctype,
                        t.body.len(),
                    )
                },
                BackendReply::Unreachable => {
                    let text = encode_utf8("hop-endpoint: backend unreachable"@);
                    &&& t.status == 502
                    &&& t.content_type == "text/plain; charset=utf-8"@
                    &&& t.body == text
                    &&& announces(m.head, "502 "@, "text/plain; charset=utf-8"@, text.len())
                },
            }
        }),
{
    let t = translated(reply, max_resp);
    reveal_strlit("application/octet-stream");
    reveal_strlit("text/plain; charset=utf-8");
    reveal_strlit("200 OK");
    reveal_strlit("200");
    reveal_strlit("502");
    reveal_strlit("502 ");
    reveal_strlit("OK");
    reveal_strlit(" ");
    reveal_strlit("");
    lemma_three_digits(200, "200"@);
    lemma_three_digits(502, "502"@);
    lemma_decimal_value(t.status as nat);
    let code = status_text(t.status);
    assert(status_text(200) =~= "200 OK"@);
    assert(status_text(502) =~= "502 "@);
    if t.status != 200 {
        assert(code =~= decimal(t.status as nat) + seq![' ']);
    }
    assert(!code.contains('\n'));
    assert(!t.content_type.contains('\n'));
    lemma_announces(code, t.content_type, t.body);
}

/// Nothing of a response, or of what is to be done for a request, is hidden from what is said of it.
pub proof fn law_response_is_seen_whole(m: HttpMessage, t: Translated, step: ProxyStep)
    ensures
        m@.head == m.head@ && m@.body == m.body@,
        t@.status == t.status && t@.content_type == t.content_type@ && t@.body == t.body@,
        step matches ProxyStep::Reply(r) ==> step@ == ProxySpec::Reply(r@),
        step matches ProxyStep::Fetch { url, scheme, head_only } ==> step@ == (ProxySpec::Fetch {
            url: url@,
            scheme: scheme@,
            head_only,
        }),
{
}

} // verus!
