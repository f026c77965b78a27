use simple_forwarder::connection_tracker::{
    ConnStatus, ConnectionTracker, Protocol, CLEANUP_PERIOD, CLOSED_RETENTION_NANOS,
    MAX_CONNECTIONS,
};
use std::sync::atomic::Ordering;

#[test]
fn test_tracker_lifecycle() {
    let mut tracker = ConnectionTracker::new();

    // 1. Register a connection
    let (id, sent_ctr, recv_ctr) = tracker.register(
        "127.0.0.1:12345".to_string(),
        "google.com:443".to_string(),
        "HTTPS".to_string(),
    );
    assert_eq!(id, 1);

    // 2. Initial state
    {
        let snap = tracker.snapshot();
        assert_eq!(snap.len(), 1);
        assert_eq!(snap[0].id, 1);
        assert_eq!(&*snap[0].source_ip, "127.0.0.1:12345");
        assert_eq!(snap[0].status, ConnStatus::Connecting);
        assert_eq!(snap[0].bytes_sent.load(Ordering::Relaxed), 0);
        assert_eq!(snap[0].bytes_received.load(Ordering::Relaxed), 0);
    }

    // 3. Update properties and counters
    tracker.set_connected(id);
    tracker.set_exe_name(id, "chrome.exe".to_string());
    sent_ctr.fetch_add(1024, Ordering::Relaxed);
    recv_ctr.fetch_add(2048, Ordering::Relaxed);

    {
        let snap = tracker.snapshot();
        assert_eq!(snap.len(), 1);
        assert_eq!(snap[0].status, ConnStatus::Connected);
        assert_eq!(&*snap[0].exe_name, "chrome.exe");
        assert_eq!(snap[0].bytes_sent.load(Ordering::Relaxed), 1024);
        assert_eq!(snap[0].bytes_received.load(Ordering::Relaxed), 2048);
    }

    // 4. Close connection
    tracker.set_closed(id);
    {
        let snap = tracker.snapshot();
        assert_eq!(snap.len(), 1);
        assert_eq!(snap[0].status, ConnStatus::Closed);
    }
}

#[test]
fn earlier_snapshots_go_on_counting() {
    let mut tracker = ConnectionTracker::new();
    let (id, sent, received) =
        tracker.register("a".to_string(), "b".to_string(), "c".to_string());
    let (other, _, _) = tracker.register("d".to_string(), "e".to_string(), "f".to_string());
    let before = tracker.snapshot();
    tracker.set_exe_name(id, "x.exe".to_string());
    tracker.set_connected(id);
    sent.fetch_add(3, Ordering::Relaxed);
    received.fetch_add(4, Ordering::Relaxed);
    // What the earlier snapshot shows stays, but for the counters.
    assert_eq!(before[0].exe_name, "");
    assert_eq!(before[0].status, ConnStatus::Connecting);
    let after = tracker.snapshot();
    assert_eq!(after[0].exe_name, "x.exe");
    for c in [&before[0], &after[0]] {
        assert_eq!(c.bytes_sent.load(Ordering::Relaxed), 3);
        assert_eq!(c.bytes_received.load(Ordering::Relaxed), 4);
    }
    assert_eq!(after[1].id, other);
    assert_eq!(after[1].status, ConnStatus::Connecting);
}

fn add(tracker: &mut ConnectionTracker, source: &str) -> u64 {
    let (id, _, _) = tracker.register_at(
        source.to_string(),
        "target".to_string(),
        "SOCKS5".to_string(),
        "2024-01-02 03:04:05".to_string(),
    );
    id
}

#[test]
fn registration_fills_every_field() {
    let mut tracker = ConnectionTracker::new();
    assert_eq!(tracker.next_id(), 1);
    let id = add(&mut tracker, "1.2.3.4:5");
    assert_eq!(tracker.next_id(), 2);
    let snap = tracker.snapshot_at(0);
    let c = &snap[0];
    assert_eq!(c.id, id);
    assert_eq!(c.source_ip, "1.2.3.4:5");
    assert_eq!(c.outbound_target, "target");
    assert_eq!(c.proxy_protocol, "SOCKS5");
    assert_eq!(c.proxy, "connecting...");
    assert_eq!(c.start_time, "2024-01-02 03:04:05");
    assert_eq!(c.status, ConnStatus::Connecting);
    assert_eq!(c.exe_name, "");
    assert_eq!(c.closed_at, None);
}

#[test]
fn register_stamps_the_local_time() {
    let mut tracker = ConnectionTracker::new();
    tracker.register("a".to_string(), "b".to_string(), "c".to_string());
    let snap = tracker.snapshot();
    let time = snap[0].start_time.clone();
    let shape: String =
        time.chars().map(|c| if c.is_ascii_digit() { '0' } else { c }).collect();
    assert_eq!(shape, "0000-00-00 00:00:00");
}

#[test]
fn setters_touch_one_connection() {
    let mut tracker = ConnectionTracker::new();
    let a = add(&mut tracker, "a");
    let b = add(&mut tracker, "b");
    tracker.set_proxy(b, "direct".to_string());
    tracker.set_outbound_target(b, "host:80".to_string());
    tracker.set_proxy_protocol(b, "HTTP".to_string());
    tracker.set_exe_name(b, "x".to_string());
    tracker.set_error_at(b, "broken", 7);
    let snap = tracker.snapshot_at(7);
    assert_eq!(snap[0].id, a);
    assert_eq!(snap[0].proxy, "connecting...");
    assert_eq!(snap[0].status, ConnStatus::Connecting);
    assert_eq!(snap[1].proxy, "direct");
    assert_eq!(snap[1].outbound_target, "host:80");
    assert_eq!(snap[1].proxy_protocol, "HTTP");
    assert_eq!(snap[1].exe_name, "x");
    assert_eq!(snap[1].status, ConnStatus::Error("broken".to_string()));
    assert_eq!(snap[1].closed_at, Some(7));
}

#[test]
fn unknown_ids_change_nothing() {
    let mut tracker = ConnectionTracker::new();
    let a = add(&mut tracker, "a");
    tracker.set_connected(a + 1);
    tracker.set_closed(0);
    let snap = tracker.snapshot();
    assert_eq!(snap.len(), 1);
    assert_eq!(snap[0].status, ConnStatus::Connecting);
}

#[test]
fn the_oldest_gives_way() {
    let mut tracker = ConnectionTracker::new();
    for i in 0..MAX_CONNECTIONS {
        assert_eq!(add(&mut tracker, "x"), i as u64 + 1);
    }
    assert_eq!(tracker.snapshot_at(0).len(), MAX_CONNECTIONS);
    let last = add(&mut tracker, "last");
    let snap = tracker.snapshot_at(0);
    assert_eq!(snap.len(), MAX_CONNECTIONS);
    assert_eq!(snap[0].id, 2);
    assert_eq!(snap[MAX_CONNECTIONS - 1].id, last);
    for w in snap.windows(2) {
        assert!(w[0].id < w[1].id);
    }
    tracker.set_connected(1);
    assert_eq!(tracker.snapshot_at(0).len(), MAX_CONNECTIONS);
}

#[test]
fn closed_connections_are_kept_for_a_while() {
    let mut tracker = ConnectionTracker::new();
    let a = add(&mut tracker, "a");
    let b = add(&mut tracker, "b");
    tracker.set_closed_at(a, 100);
    // The first snapshot cleans up, and the time is not over.
    assert_eq!(tracker.snapshot_at(100 + CLOSED_RETENTION_NANOS - 1).len(), 2);
    // The next four do not clean up.
    for _ in 0..CLEANUP_PERIOD - 1 {
        assert_eq!(tracker.snapshot_at(100 + CLOSED_RETENTION_NANOS).len(), 2);
    }
    let snap = tracker.snapshot_at(100 + CLOSED_RETENTION_NANOS);
    assert_eq!(snap.len(), 1);
    assert_eq!(snap[0].id, b);
    // What is forgotten stays forgotten.
    assert_eq!(tracker.snapshot_at(0).len(), 1);
}

#[test]
fn a_clock_that_reads_earlier_keeps_connections() {
    let mut tracker = ConnectionTracker::new();
    let a = add(&mut tracker, "a");
    tracker.set_error_at(a, "e", 1_000_000_000_000);
    assert_eq!(tracker.snapshot_at(0).len(), 1);
}

#[test]
fn statuses_and_protocols_have_texts() {
    assert_eq!(ConnStatus::Connecting.text(), "connecting");
    assert_eq!(ConnStatus::Connected.text(), "connected");
    assert_eq!(ConnStatus::Closed.text(), "closed");
    assert_eq!(ConnStatus::Error("x".to_string()).text(), "error: x");
    let names = [
        (Protocol::Socks4, "SOCKS4"),
        (Protocol::Socks4a, "SOCKS4a"),
        (Protocol::Socks5, "SOCKS5"),
        (Protocol::Socks5h, "SOCKS5h"),
        (Protocol::Http, "HTTP"),
        (Protocol::Direct, "Direct"),
    ];
    for (protocol, name) in names {
        assert_eq!(protocol.text(), name);
    }
}

#[test]
fn status_texts_differ() {
    let all = [
        ConnStatus::Connecting,
        ConnStatus::Connected,
        ConnStatus::Closed,
        ConnStatus::Error("".to_string()),
        ConnStatus::Error("closed".to_string()),
    ];
    for a in &all {
        for b in &all {
            assert_eq!(a.text() == b.text(), a == b);
        }
    }
}
