use hop_endpoint::driver::{Driver, DriverEvent, NodeCall};
use hop_endpoint::hops::Answer;
use hop_endpoint::link::Role;
use hop_endpoint::record::{WELL_KNOWN_RESIGN_NANOS, WELL_KNOWN_TTL_SECS};

#[test]
fn run_driver_dispatches_events_and_routes_outgoing_to_the_link_writer() {
    let mut driver: Driver<&str> = Driver::new(0);
    assert!(driver.route(vec![(1, vec![7])]).is_empty());

    let step = driver.run(DriverEvent::Up(1, Role::Initiator, "out"), 1);
    assert!(matches!(step.call, NodeCall::Connected(1, Role::Initiator)));
    assert!(!step.resign);
    let sent = driver.route(vec![(2, vec![1]), (1, vec![2, 3]), (1, vec![4])]);
    let sent: Vec<_> = sent.iter().map(|d| (d.link, *d.to, d.bytes.clone())).collect();
    assert_eq!(
        sent,
        vec![(1, "out", vec![2, 3]), (1, "out", vec![4])],
        "the driver routed the node's frames to the link writer, in order, and to no other"
    );

    let step = driver.run(DriverEvent::Data(1, vec![0xde, 0xad, 0xbe, 0xef]), 2);
    match step.call {
        NodeCall::Data(1, b) => assert_eq!(b, vec![0xde, 0xad, 0xbe, 0xef]),
        _ => panic!("bytes go to the node"),
    }
    let step = driver.run(
        DriverEvent::Fetched(Answer {
            to: [0u8; 32],
            for_id: [1u8; 32],
            status: 200,
            content_type: "text/plain; charset=utf-8".to_string(),
            body: b"body".to_vec(),
        }),
        3,
    );
    match step.call {
        NodeCall::Respond { to, for_id, status, headers, body } => {
            assert_eq!(to, [0u8; 32]);
            assert_eq!(for_id, [1u8; 32]);
            assert_eq!(status, 200);
            assert_eq!(
                headers,
                vec![("content-type".to_string(), "text/plain; charset=utf-8".to_string())]
            );
            assert_eq!(body, b"body");
        }
        _ => panic!("a response goes to the node"),
    }
    let step = driver.run(DriverEvent::Down(1), 4);
    assert!(matches!(step.call, NodeCall::Disconnected(1)));
    assert!(driver.route(vec![(1, vec![7])]).is_empty());
    assert!(matches!(driver.run(DriverEvent::Idle, 5).call, NodeCall::Tick));
    assert!(matches!(driver.run(DriverEvent::Closed, 6).call, NodeCall::Stop));
}

#[test]
fn a_writer_that_fails_is_forgotten() {
    let mut driver: Driver<u8> = Driver::new(0);
    driver.run(DriverEvent::Up(1, Role::Responder, 11), 0);
    driver.run(DriverEvent::Up(2, Role::Responder, 22), 0);
    driver.writer_failed(1);
    let sent = driver.route(vec![(1, vec![0]), (2, vec![0])]);
    assert_eq!(sent.len(), 1);
    assert_eq!((sent[0].link, *sent[0].to), (2, 22));
}

#[test]
fn the_latest_coming_up_counts() {
    let mut driver: Driver<u8> = Driver::new(0);
    driver.run(DriverEvent::Up(1, Role::Responder, 11), 0);
    driver.run(DriverEvent::Down(1), 0);
    driver.run(DriverEvent::Up(1, Role::Responder, 12), 0);
    driver.run(DriverEvent::Up(1, Role::Initiator, 13), 0);
    driver.run(DriverEvent::Down(2), 0);
    let sent = driver.route(vec![(1, vec![5])]);
    assert_eq!(*sent[0].to, 13);
    assert_eq!(sent[0].bytes, vec![5]);
}

#[test]
fn the_record_is_signed_every_hour() {
    let mut driver: Driver<u8> = Driver::new(10);
    let due = 10 + WELL_KNOWN_RESIGN_NANOS;
    assert!(!driver.run(DriverEvent::Idle, due - 1).resign);
    assert!(driver.run(DriverEvent::Idle, due).resign);
    assert!(!driver.run(DriverEvent::Idle, due + 1).resign);
    // With steady traffic too.
    let due = due + WELL_KNOWN_RESIGN_NANOS;
    assert!(driver.run(DriverEvent::Data(1, vec![]), due).resign);
    assert!(!driver.run(DriverEvent::Idle, due + 1).resign);
    let due = due + WELL_KNOWN_RESIGN_NANOS;
    assert!(driver.run(DriverEvent::Up(1, Role::Responder, 0), due).resign);
    assert!(!driver.run(DriverEvent::Closed, u64::MAX).resign);
}

#[test]
fn a_served_record_is_never_stale() {
    let ttl = WELL_KNOWN_TTL_SECS as u64 * 1_000_000_000;
    let mut driver: Driver<u8> = Driver::new(0);
    let mut signed = 0u64;
    let mut now = 0u64;
    // Half a second between two events, so that the driver is never idle, for three hours.
    for i in 0..21_600u64 {
        now += 500_000_000;
        let ev = match i % 3 {
            0 => DriverEvent::Data(1, vec![1]),
            1 => DriverEvent::Up(i, Role::Responder, 0),
            _ => DriverEvent::Down(i - 1),
        };
        if driver.run(ev, now).resign {
            signed = now;
        }
        assert!(now - signed < WELL_KNOWN_RESIGN_NANOS);
    }
    assert_eq!(signed, 3 * WELL_KNOWN_RESIGN_NANOS);
    // And with pauses of any length up to an hour.
    for i in 0..50u64 {
        now += (i % 7) * 599_000_000_000;
        assert!(now - signed < ttl);
        if driver.run(DriverEvent::Idle, now).resign {
            signed = now;
        }
    }
}
