use hop_endpoint::hops::{
    answer, fetch, handle_http_request, handle_http_requests, FetchStep, HopsDecision, HopsRequest,
    HopsStep,
};
use hop_endpoint::limits::{Slots, MAX_INFLIGHT_FETCHES};
use hop_endpoint::proxy::{translate, BackendReply, Translated};

/// What a client of the mesh gets back, with an origin that answers by `origin_says`.
fn served(
    method: &str,
    url: &str,
    max_resp: u32,
    origin_says: &dyn Fn(&str, &str) -> BackendReply,
) -> Translated {
    match fetch("http://127.0.0.1:1", method, url) {
        FetchStep::Reply(t) => t,
        FetchStep::Get { url, scheme } => translate(origin_says(&url, scheme), max_resp),
    }
}

fn never(_: &str, _: &str) -> BackendReply {
    panic!("the origin must not be asked")
}

#[test]
fn fetch_rejects_non_get_without_touching_the_backend() {
    let t = served("POST", "/x", 8 * 1024 * 1024, &never);
    assert_eq!(t.status, 405, "non-GET is rejected");
    assert!(t.content_type.starts_with("text/plain"));
    assert!(String::from_utf8_lossy(&t.body).contains("only GET"));
    let t = served("DELETE", "/x", 1024, &never);
    assert_eq!(t.status, 405, "DELETE is also rejected");
    // The method is matched in any case.
    let t = served("get", "/x", 1024, &|_, _| BackendReply::Unreachable);
    assert_eq!(t.status, 502);
}

#[test]
fn fetch_hits_origin_plus_path_only_and_passes_status_ctype_body() {
    let t = served("GET", "https://evil.example/page?q=1", 8 * 1024 * 1024, &|url, scheme| {
        assert_eq!(
            url, "http://127.0.0.1:1/page?q=1",
            "fetched the path only, never the client's host"
        );
        assert_eq!(scheme, "hops", "the mesh scheme is stamped for the origin");
        BackendReply::Answered {
            status: 201,
            content_type: Some("text/html; charset=utf-8".to_string()),
            body: Some(b"<h1>hi</h1>".to_vec()),
        }
    });
    assert_eq!(t.status, 201, "origin status is passed through");
    assert_eq!(t.content_type, "text/html; charset=utf-8", "content-type preserved");
    assert_eq!(t.body, b"<h1>hi</h1>");
}

#[test]
fn fetch_truncates_a_body_over_max_resp() {
    let t = served("GET", "/big", 100, &|_, _| BackendReply::Answered {
        status: 200,
        content_type: Some("application/octet-stream".to_string()),
        body: Some(vec![7u8; 5000]),
    });
    assert_eq!(t.status, 200);
    assert_eq!(t.body.len(), 100, "body truncated to the max_resp cap");
    assert!(t.body.iter().all(|&b| b == 7));
}

#[test]
fn fetch_returns_502_when_the_backend_is_unreachable() {
    let t = served("GET", "/", 1024, &|_, _| BackendReply::Unreachable);
    assert_eq!(t.status, 502, "unreachable backend => 502");
    assert!(t.content_type.starts_with("text/plain"));
    assert!(String::from_utf8_lossy(&t.body).contains("unreachable"));
}

#[test]
fn handle_http_requests_enforces_domain_binding_serves_matches_and_sheds_when_busy() {
    let domain = "example.hopme.sh";
    let mut slots = Slots::new(MAX_INFLIGHT_FETCHES);

    let one = |n: u8, host: &str, slots: &mut Slots| {
        let mut decisions = handle_http_requests(vec![request(n, host)], domain, slots);
        assert_eq!(decisions.len(), 1);
        decisions.remove(0)
    };

    // A host that is not the domain takes no place and is refused.
    match one(1, "evil.example", &mut slots) {
        HopsDecision::Answer(a) => {
            assert_eq!(a.status, 403, "a non-authorized host is refused");
            assert!(a.content_type.starts_with("text/plain"));
            assert!(String::from_utf8_lossy(&a.body).contains("only serves example.hopme.sh"));
        }
        HopsDecision::Serve(_) => panic!("another host must not be served"),
    }
    assert_eq!(slots.active(), 0);

    // A trailing dot and another case make no difference.
    match one(2, "Example.HopMe.sh.", &mut slots) {
        HopsDecision::Answer(a) => panic!("the domain must be served, not {}", a.status),
        HopsDecision::Serve(r) => {
            assert_eq!(slots.active(), 1);
            let t = served(&r.method, &r.url, 1024, &|_, _| BackendReply::Answered {
                status: 200,
                content_type: Some("text/plain; charset=utf-8".to_string()),
                body: Some(b"ok".to_vec()),
            });
            assert_eq!(t.status, 200, "a matching host (case/dot-insensitive) is served");
            assert_eq!(t.body, b"ok", "the origin body is passed back");
        }
    }
    slots.release();

    // With every place taken the request is shed.
    for _ in 0..MAX_INFLIGHT_FETCHES {
        assert!(slots.try_acquire());
    }
    match one(3, "example.hopme.sh", &mut slots) {
        HopsDecision::Answer(a) => {
            assert_eq!(a.status, 503, "over the fetch cap the request is shed, not queued");
            assert!(String::from_utf8_lossy(&a.body).contains("busy"));
        }
        HopsDecision::Serve(_) => panic!("no place is free"),
    }
    // Another host is refused, not told to try again.
    match one(4, "evil.example", &mut slots) {
        HopsDecision::Answer(a) => assert_eq!(a.status, 403),
        HopsDecision::Serve(_) => panic!("another host must not be served"),
    }
}

#[test]
fn a_batch_fills_the_places_that_are_free() {
    let mut slots = Slots::new(3);
    let hosts = ["a.b", "x.y", "A.B", "a.b.", "a.b", "x.y", "a.b"];
    let served = hosts
        .iter()
        .filter(|h| matches!(handle_http_request(h, "a.b", &mut slots), HopsStep::Serve))
        .count();
    assert_eq!(served, 3);
    assert_eq!(slots.active(), 3);
}

fn request(n: u8, host: &str) -> HopsRequest {
    HopsRequest {
        from: [n; 32],
        id: [n + 100; 32],
        host: host.to_string(),
        method: "GET".to_string(),
        url: format!("/{n}"),
    }
}

#[test]
fn each_request_of_a_batch_is_answered_to_its_sender_in_order() {
    let mut slots = Slots::new(2);
    assert!(slots.try_acquire());
    let hosts = ["x.y", "a.b", "A.B.", "x.y"];
    let batch = (0u8..4).map(|n| request(n, hosts[n as usize])).collect();
    let decisions = handle_http_requests(batch, "a.b", &mut slots);
    let got: Vec<(u16, u8, u8)> = decisions
        .iter()
        .map(|d| match d {
            HopsDecision::Answer(a) => (a.status, a.to[0], a.for_id[31]),
            HopsDecision::Serve(r) => {
                assert_eq!(r.url, "/1");
                (0, r.from[0], r.id[31])
            }
        })
        .collect();
    assert_eq!(got, vec![(403, 0, 100), (0, 1, 101), (503, 2, 102), (403, 3, 103)]);
    // Once the one that is served is done, the places are as before.
    assert_eq!(slots.active(), 2);
    slots.release();
    assert_eq!(slots.active(), 1);

    let reply = translate(BackendReply::Unreachable, 5);
    let a = answer(&request(7, "a.b"), reply);
    assert_eq!((a.to, a.for_id, a.status), ([7u8; 32], [107u8; 32], 502));
    assert_eq!(a.content_type, "text/plain; charset=utf-8");
    assert_eq!(a.body, b"hop-endpoint: backend unreachable");
}

#[test]
fn fetch_guard_decrements_inflight_fetches_on_drop() {
    let mut slots = Slots::new(MAX_INFLIGHT_FETCHES);
    let before = slots.active();
    assert!(slots.try_acquire());
    assert_eq!(slots.active(), before + 1);
    slots.release();
    assert_eq!(slots.active(), before, "the in-flight fetch slot is released");
}
