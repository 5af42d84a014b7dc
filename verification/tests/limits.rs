use hop_endpoint::limits::{
    admit_connection, RateLimiter, Slots, MAX_CONNS, MAX_REQ_PER_WINDOW, RATE_MAP_SWEEP_AT,
    RATE_WINDOW_NANOS,
};
use hop_endpoint::source::{accept_peer_limited, Ip, TrustedProxy};

fn v4(a: u8, b: u8, c: u8, d: u8) -> Ip {
    Ip::V4(u32::from_be_bytes([a, b, c, d]))
}

#[test]
fn per_source_rate_limit_sheds_over_budget() {
    let mut limiter = RateLimiter::new();
    let ip = v4(203, 0, 113, 7);
    for _ in 0..MAX_REQ_PER_WINDOW {
        assert!(limiter.allow_source(ip, 5), "under budget is admitted");
    }
    assert!(
        !limiter.allow_source(ip, 5),
        "the request past the window budget is shed"
    );
    assert_eq!(limiter.requests_in_window(ip, 5), 101);
}

#[test]
fn a_window_ends_after_ten_seconds() {
    let mut limiter = RateLimiter::new();
    let ip = Ip::V6(7);
    for _ in 0..=MAX_REQ_PER_WINDOW {
        limiter.allow_source(ip, 100);
    }
    let end = 100 + RATE_WINDOW_NANOS;
    assert!(!limiter.allow_source(ip, end - 1));
    assert_eq!(limiter.requests_in_window(ip, end - 1), 102);
    assert_eq!(limiter.requests_in_window(ip, end), 0);
    assert!(limiter.allow_source(ip, end));
    assert_eq!(limiter.requests_in_window(ip, end), 1);
}

#[test]
fn sources_have_budgets_of_their_own() {
    let mut limiter = RateLimiter::new();
    for _ in 0..=MAX_REQ_PER_WINDOW {
        limiter.allow_source(Ip::V4(1), 0);
    }
    assert!(!limiter.allow_source(Ip::V4(1), 0));
    assert!(limiter.allow_source(Ip::V6(1), 0));
    assert!(limiter.allow_source(Ip::V4(2), 0));
}

#[test]
fn allow_source_sweeps_the_map_once_it_grows_past_the_threshold() {
    let mut limiter = RateLimiter::new();
    let n = (RATE_MAP_SWEEP_AT as u32) + 2;
    let mut admitted = true;
    for i in 0..n {
        admitted &= limiter.allow_source(Ip::V4(0xB000_0000u32 + i), 0);
    }
    assert!(
        admitted,
        "fresh distinct sources are all admitted (and the sweep retains them)"
    );
    for i in 0..n {
        assert_eq!(limiter.requests_in_window(Ip::V4(0xB000_0000u32 + i), 0), 1);
    }
    // Once their windows are over they are forgotten, and start afresh.
    let later = RATE_WINDOW_NANOS;
    assert!(limiter.allow_source(Ip::V6(9), later));
    assert_eq!(limiter.requests_in_window(Ip::V4(0xB000_0000u32), later), 0);
    assert_eq!(limiter.requests_in_window(Ip::V6(9), later), 1);
}

#[test]
fn accept_loop_does_not_globally_rate_limit_behind_a_trusted_lb() {
    let lb_ip = v4(35, 191, 0, 5);
    for _ in 0..(MAX_REQ_PER_WINDOW * 5) {
        assert!(
            !accept_peer_limited(lb_ip, TrustedProxy::Any),
            "a trusted-any LB peer is never peer-rate-limited at accept"
        );
    }
    assert!(
        !accept_peer_limited(lb_ip, TrustedProxy::Ip(lb_ip)),
        "the configured trusted LB IP is exempt from the accept-loop bucket"
    );
    let other = v4(203, 0, 113, 99);
    assert!(
        accept_peer_limited(other, TrustedProxy::Ip(lb_ip)),
        "a non-trusted peer is still limited even when a specific LB IP is trusted"
    );
    assert!(
        accept_peer_limited(lb_ip, TrustedProxy::Direct),
        "with no trusted proxy the accept-loop peer limiter stays on as the backstop"
    );
}

#[test]
fn a_connection_needs_a_budget_and_a_place() {
    let mut limiter = RateLimiter::new();
    let mut slots = Slots::new(MAX_CONNS);
    let ip = v4(203, 0, 113, 8);
    for _ in 0..MAX_REQ_PER_WINDOW {
        assert!(admit_connection(Some(ip), TrustedProxy::Direct, &mut limiter, 0, &mut slots));
    }
    // Over its budget a source takes no place.
    assert!(!admit_connection(Some(ip), TrustedProxy::Direct, &mut limiter, 0, &mut slots));
    assert_eq!(slots.active(), 100);
    // A front-end is not limited by its address, only by the places.
    let trusted = TrustedProxy::Ip(ip);
    for _ in 100..MAX_CONNS {
        assert!(admit_connection(Some(ip), trusted, &mut limiter, 0, &mut slots));
    }
    assert!(!admit_connection(Some(ip), trusted, &mut limiter, 0, &mut slots));
    assert!(!admit_connection(None, TrustedProxy::Direct, &mut limiter, 0, &mut slots));
    assert_eq!(slots.active(), 256);
    slots.release();
    assert!(admit_connection(None, TrustedProxy::Direct, &mut limiter, 0, &mut slots));
    // A source that finds no place has still made a request.
    let other = v4(203, 0, 113, 9);
    assert!(!admit_connection(Some(other), TrustedProxy::Direct, &mut limiter, 0, &mut slots));
    assert_eq!(limiter.requests_in_window(other, 0), 1);
}

#[test]
fn conn_guard_decrements_active_conns_on_drop() {
    let mut slots = Slots::new(MAX_CONNS);
    let before = slots.active();
    assert!(slots.try_acquire());
    slots.release();
    assert_eq!(slots.active(), before, "the connection slot is released");
}
