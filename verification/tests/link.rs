use hop_endpoint::bearer::{
    bearer_ws_config, reconnect_backoff, MAX_FRAME_BYTES, RECONNECT_BASE_SECS, RECONNECT_MAX_SECS,
};
use hop_endpoint::link::{
    link_step, DialEvent, DialStep, Happened, Incoming, Io, LinkStep, Queue, RelayDialer, Role,
};
use std::io::Cursor;
use tungstenite::protocol::{Role as WsRole, WebSocket};
use tungstenite::Message;

#[test]
fn reconnect_backoff_grows_then_caps() {
    assert_eq!(reconnect_backoff(0), RECONNECT_BASE_SECS, "no failures resets to base");
    assert_eq!(reconnect_backoff(1), 5, "first failure = base");
    assert_eq!(reconnect_backoff(2), 10);
    assert_eq!(reconnect_backoff(3), 20);
    assert_eq!(reconnect_backoff(4), 40);
    assert_eq!(reconnect_backoff(5), RECONNECT_MAX_SECS, "caps at max (would be 80s)");
    assert_eq!(reconnect_backoff(100), RECONNECT_MAX_SECS, "stays capped, no overflow");
    assert!(
        reconnect_backoff(20) <= RECONNECT_MAX_SECS,
        "a long-dead relay is never dialed faster than the cap"
    );
    assert_eq!(reconnect_backoff(u32::MAX), 60);
}

/// The bytes of one masked binary frame, with a mask of zeros.
fn frame(payload: &[u8]) -> Vec<u8> {
    let mut f = vec![0x82u8, 0x80 | 127];
    f.extend_from_slice(&(payload.len() as u64).to_be_bytes());
    f.extend_from_slice(&[0, 0, 0, 0]);
    f.extend_from_slice(payload);
    f
}

#[test]
fn ws_bearer_config_rejects_an_oversized_frame_at_the_cap() {
    let cfg = bearer_ws_config();
    assert_eq!(cfg.max_message_size, Some(MAX_FRAME_BYTES));
    assert_eq!(cfg.max_frame_size, Some(MAX_FRAME_BYTES));

    let mut bytes = frame(&[1, 2, 3, 4]);
    bytes.extend_from_slice(&frame(&vec![0xABu8; MAX_FRAME_BYTES + 1]));
    let mut ws = WebSocket::from_raw_socket(
        Cursor::new(bytes.clone()),
        WsRole::Server,
        Some(bearer_ws_config()),
    );
    let small_ok = matches!(ws.read(), Ok(Message::Binary(b)) if b.len() == 4);
    assert!(small_ok, "an under-cap frame is delivered");
    assert!(
        ws.read().is_err(),
        "an over-cap frame is rejected by the bearer frame cap, not buffered"
    );
    // The same frame passes with the settings that a WebSocket has by default.
    let mut ws = WebSocket::from_raw_socket(Cursor::new(bytes), WsRole::Server, None);
    assert!(ws.read().is_ok());
    assert!(ws.read().is_ok());
}

#[test]
fn the_bearer_settings_keep_the_other_defaults() {
    let cfg = bearer_ws_config();
    let default = tungstenite::protocol::WebSocketConfig::default();
    assert_eq!(cfg.read_buffer_size, default.read_buffer_size);
    assert_eq!(cfg.write_buffer_size, default.write_buffer_size);
    assert_eq!(cfg.max_write_buffer_size, default.max_write_buffer_size);
    assert_eq!(cfg.accept_unmasked_frames, default.accept_unmasked_frames);
    assert_eq!(cfg.read_buffer_size, 128 * 1024);
    assert_eq!(cfg.write_buffer_size, 128 * 1024);
    assert_eq!(cfg.max_write_buffer_size, usize::MAX);
    assert!(!cfg.accept_unmasked_frames);
}

/// Runs a link over the messages that a peer sends and the bytes in a queue, and tells what the
/// driver heard and what the peer got.
fn bridge(
    role: Role,
    mut incoming: Vec<Incoming>,
    mut queued: Vec<Vec<u8>>,
    writer_dropped: bool,
) -> (Vec<String>, Vec<Vec<u8>>) {
    incoming.reverse();
    queued.reverse();
    let mut heard = vec![format!("up {role:?}")];
    let mut got = Vec::new();
    let mut step = link_step(role, Happened::UpSent(true));
    loop {
        let happened = match step {
            LinkStep::TakeQueued => Happened::Queued(match queued.pop() {
                Some(b) => Queue::Bytes(b),
                None if writer_dropped => Queue::Gone,
                None => Queue::Empty,
            }),
            LinkStep::Write(b) => {
                got.push(b);
                Happened::Written(Io::Done)
            }
            LinkStep::Flush => Happened::Flushed(Io::Done),
            LinkStep::Read => Happened::Got(incoming.pop().unwrap_or(Incoming::Failed)),
            LinkStep::Deliver(b) => {
                heard.push(format!("data {b:?}"));
                Happened::DataSent(true)
            }
            LinkStep::Pause => Happened::Waited,
            LinkStep::AnnounceDown => {
                heard.push("down".to_string());
                Happened::DownSent
            }
            LinkStep::End => return (heard, got),
            LinkStep::Stop => panic!("the driver is there"),
        };
        step = link_step(role, happened);
    }
}

#[test]
fn serve_conn_bridges_a_websocket_as_a_hop_link_both_directions() {
    let (heard, got) = bridge(
        Role::Responder,
        vec![Incoming::NotYet, Incoming::Binary(vec![1, 2, 3, 4]), Incoming::Close],
        vec![vec![9, 8, 7]],
        false,
    );
    assert_eq!(heard, vec!["up Responder", "data [1, 2, 3, 4]", "down"]);
    assert_eq!(got, vec![vec![9, 8, 7]], "writer bytes are delivered to the client");
}

#[test]
fn serve_conn_tears_down_the_link_when_its_writer_is_dropped() {
    let (heard, _) = bridge(Role::Responder, vec![Incoming::Binary(vec![1])], vec![], true);
    assert_eq!(heard, vec!["up Responder", "down"]);
}

#[test]
fn serve_conn_ignores_non_binary_control_and_text_frames() {
    let (heard, _) = bridge(
        Role::Responder,
        vec![Incoming::Other, Incoming::Close],
        vec![],
        false,
    );
    assert_eq!(heard, vec!["up Responder", "down"]);
}

#[test]
fn dial_relay_bridges_a_relay_ws_as_an_initiator_link_and_reports_down_on_close() {
    let mut dialer = RelayDialer::new();
    assert_eq!(dialer.dial_relay(DialEvent::Connected), DialStep::RunLink);
    let (heard, got) = bridge(
        Role::Initiator,
        vec![Incoming::NotYet, Incoming::Binary(vec![5, 6, 7]), Incoming::Close],
        vec![vec![1, 2, 3]],
        false,
    );
    assert_eq!(heard, vec!["up Initiator", "data [5, 6, 7]", "down"]);
    assert_eq!(got, vec![vec![1, 2, 3]]);
    assert_eq!(
        dialer.dial_relay(DialEvent::LinkEnded),
        DialStep::DialAfter(RECONNECT_BASE_SECS)
    );
}

#[test]
fn dial_relay_reports_the_degraded_state_when_the_relay_is_unreachable() {
    let mut dialer = RelayDialer::new();
    for wait in [5u64, 10, 20, 40, 60, 60] {
        assert_eq!(
            dialer.dial_relay(DialEvent::Refused),
            DialStep::DialAfter(wait),
            "an unreachable relay never surfaces a link (it degrades and backs off)"
        );
    }
    assert_eq!(dialer.failures(), 6);
    assert_eq!(dialer.dial_relay(DialEvent::Connected), DialStep::RunLink);
    assert_eq!(dialer.failures(), 0);
    assert_eq!(dialer.dial_relay(DialEvent::Refused), DialStep::DialAfter(5));
    assert_eq!(dialer.dial_relay(DialEvent::DriverGone), DialStep::Stop);
}

#[test]
fn a_full_socket_only_matters_where_it_blocks() {
    assert!(matches!(
        link_step(Role::Initiator, Happened::Written(Io::WouldBlock)),
        LinkStep::TakeQueued
    ));
    assert!(matches!(
        link_step(Role::Initiator, Happened::Flushed(Io::WouldBlock)),
        LinkStep::Read
    ));
    assert!(matches!(
        link_step(Role::Responder, Happened::Written(Io::WouldBlock)),
        LinkStep::AnnounceDown
    ));
    assert!(matches!(
        link_step(Role::Responder, Happened::Flushed(Io::WouldBlock)),
        LinkStep::AnnounceDown
    ));
    for role in [Role::Initiator, Role::Responder] {
        assert!(matches!(
            link_step(role, Happened::Written(Io::Failed)),
            LinkStep::AnnounceDown
        ));
        assert!(matches!(
            link_step(role, Happened::Flushed(Io::Failed)),
            LinkStep::AnnounceDown
        ));
        assert!(matches!(
            link_step(role, Happened::Got(Incoming::Failed)),
            LinkStep::AnnounceDown
        ));
        assert!(matches!(link_step(role, Happened::UpSent(false)), LinkStep::Stop));
    }
    assert!(matches!(
        link_step(Role::Initiator, Happened::Got(Incoming::NotYet)),
        LinkStep::Pause
    ));
    assert!(matches!(
        link_step(Role::Responder, Happened::Got(Incoming::NotYet)),
        LinkStep::TakeQueued
    ));
    assert!(matches!(
        link_step(Role::Initiator, Happened::DataSent(false)),
        LinkStep::Stop
    ));
    assert!(matches!(
        link_step(Role::Responder, Happened::DataSent(false)),
        LinkStep::AnnounceDown
    ));
}
