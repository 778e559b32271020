use bytes::Bytes;
use sockudo_ws::heartbeat::{bounded_close_reason, Deadline, Heartbeat};
use sockudo_ws::Config;

fn config() -> Config {
    Config::builder()
        .idle_timeout(0)
        .ping_interval(10)
        .pong_timeout(5)
        .build()
}

#[test]
fn inactivity_and_matching_pong_cycle() {
    let mut heartbeat = Heartbeat::new(&config(), 0);
    assert_eq!(heartbeat.next_deadline(), Some(Deadline::Ping(10_000)));
    assert!(heartbeat.ping_due(9_999, 1).is_none());

    let payload = heartbeat.ping_due(10_000, 1).unwrap();
    assert!(heartbeat.has_outstanding_ping());
    assert_eq!(heartbeat.next_deadline(), None);

    heartbeat.ping_flushed(10_100);
    assert_eq!(heartbeat.next_deadline(), Some(Deadline::Pong(15_100)));
    assert!(!heartbeat.on_inbound(11_000, Some(&Bytes::from_static(b"wrong"))));
    assert_eq!(heartbeat.next_deadline(), Some(Deadline::Pong(15_100)));
    assert!(heartbeat.on_inbound(12_000, Some(&payload)));
    assert_eq!(heartbeat.next_deadline(), Some(Deadline::Ping(22_000)));
}

#[test]
fn traffic_resets_inactivity_but_not_pong_deadline() {
    let mut heartbeat = Heartbeat::new(&config(), 0);
    let _ = heartbeat.ping_due(10_000, 1).unwrap();
    heartbeat.ping_flushed(10_000);
    heartbeat.on_inbound(12_000, None);
    assert_eq!(heartbeat.next_deadline(), Some(Deadline::Pong(15_000)));
}

#[test]
fn matching_pong_before_flush_is_retained_until_flush_completes() {
    let mut heartbeat = Heartbeat::new(&config(), 0);
    let payload = heartbeat.ping_due(10_000, 1).unwrap();

    assert!(!heartbeat.on_inbound(11_000, Some(&payload)));
    heartbeat.ping_flushed(12_000);

    assert!(!heartbeat.has_outstanding_ping());
    assert_eq!(heartbeat.next_deadline(), Some(Deadline::Ping(21_000)));
}

#[test]
fn queued_pong_does_not_move_inactivity_backwards() {
    let mut heartbeat = Heartbeat::new(&config(), 0);
    let payload = heartbeat.ping_due(10_000, 1).unwrap();
    heartbeat.ping_flushed(10_000);
    heartbeat.on_inbound(12_000, None);

    assert!(heartbeat.on_inbound(11_000, Some(&payload)));
    assert_eq!(heartbeat.next_deadline(), Some(Deadline::Ping(22_000)));
}

#[test]
fn zero_pong_timeout_keeps_one_ping_outstanding_without_deadline() {
    let config = Config::builder()
        .idle_timeout(0)
        .ping_interval(1)
        .pong_timeout(0)
        .build();
    let mut heartbeat = Heartbeat::new(&config, 0);
    let _ = heartbeat.ping_due(1_000, 1).unwrap();
    heartbeat.ping_flushed(1_000);
    assert_eq!(heartbeat.next_deadline(), None);
    assert!(heartbeat.has_outstanding_ping());
}

#[test]
fn pong_timeout_wins_idle_timeout_tie() {
    let config = Config::builder()
        .ping_interval(1)
        .pong_timeout(2)
        .idle_timeout(3)
        .build();
    let mut heartbeat = Heartbeat::new(&config, 0);
    let _ = heartbeat.ping_due(1_000, 1).unwrap();
    heartbeat.ping_flushed(1_000);
    assert_eq!(heartbeat.next_deadline(), Some(Deadline::Pong(3_000)));
}

#[test]
fn close_reason_is_bounded_at_a_utf8_boundary() {
    let reason = "x".repeat(122) + "€";
    let bounded = bounded_close_reason(&reason);
    assert_eq!(bounded.len(), 122);
    assert!(bounded.is_char_boundary(bounded.len()));
}

#[test]
fn unsolicited_stale_and_late_pongs_do_not_match() {
    let mut heartbeat = Heartbeat::new(&config(), 0);
    assert!(!heartbeat.on_inbound(1_000, Some(&Bytes::from_static(b"unsolicited"))));

    let first = heartbeat.ping_due(11_000, 1).unwrap();
    heartbeat.ping_flushed(11_000);
    assert!(heartbeat.on_inbound(12_000, Some(&first)));

    let second = heartbeat.ping_due(22_000, 2).unwrap();
    heartbeat.ping_flushed(22_000);
    assert_ne!(first, second);
    assert!(!heartbeat.on_inbound(23_000, Some(&first)));
    assert!(!heartbeat.on_inbound(27_000, Some(&second)));
    assert!(heartbeat.has_outstanding_ping());
}

#[test]
fn disabled_proactive_ping_and_zero_hard_idle_have_no_deadline() {
    let config = Config::builder()
        .auto_ping(false)
        .ping_interval(1)
        .idle_timeout(0)
        .build();
    assert_eq!(Heartbeat::new(&config, 0).next_deadline(), None);

    let zero_interval = Config::builder()
        .auto_ping(true)
        .ping_interval(0)
        .idle_timeout(0)
        .build();
    assert_eq!(Heartbeat::new(&zero_interval, 0).next_deadline(), None);
}

#[test]
fn ping_payload_is_the_nonce_and_one_ping_is_outstanding() {
    let mut heartbeat = Heartbeat::new(&config(), 0);
    let payload = heartbeat.ping_due(10_000, 0x0102_0304_0506_0708).unwrap();
    assert_eq!(payload.as_ref(), &[1, 2, 3, 4, 5, 6, 7, 8]);
    assert!(heartbeat.ping_due(50_000, 2).is_none());
}

#[test]
fn timeouts_leave_out_pings_and_stopping_ends_all() {
    let config = Config::builder().ping_interval(1).idle_timeout(3).build();
    let mut heartbeat = Heartbeat::new(&config, 0);
    assert_eq!(heartbeat.next_deadline(), Some(Deadline::Ping(1_000)));
    assert_eq!(heartbeat.next_timeout(), Some(Deadline::Idle(3_000)));
    assert_eq!(Deadline::Idle(3_000).at(), 3_000);
    assert!(heartbeat.tracks_inbound_activity());
    heartbeat.stop();
    assert_eq!(heartbeat.next_deadline(), None);
    assert!(heartbeat.ping_due(10_000, 1).is_none());
}

#[test]
fn silence_is_independent_of_the_pong() {
    let config = Config::builder()
        .ping_interval(1)
        .pong_timeout(10)
        .idle_timeout(3)
        .build();
    let mut heartbeat = Heartbeat::new(&config, 0);
    let _ = heartbeat.ping_due(1_000, 1).unwrap();
    heartbeat.ping_flushed(1_000);
    assert_eq!(heartbeat.next_deadline(), Some(Deadline::Idle(3_000)));
    assert_eq!(heartbeat.next_timeout(), Some(Deadline::Idle(3_000)));
    // Traffic puts silence off, but not the Pong.
    heartbeat.on_inbound(9_000, None);
    assert_eq!(heartbeat.next_deadline(), Some(Deadline::Pong(11_000)));
}

#[test]
fn short_reasons_are_kept() {
    assert_eq!(bounded_close_reason("bye"), "bye");
    assert_eq!(bounded_close_reason(&"x".repeat(123)).len(), 123);
    assert_eq!(bounded_close_reason(&"x".repeat(124)).len(), 123);
}
