use simple_forwarder::relay::{
    Pump, PumpAction, PumpError, PumpEvent, Relay, RelayAction, RelayEvent,
};
use simple_forwarder::stats::{Flow, TrafficStats};

fn stats() -> TrafficStats {
    TrafficStats::new("x".to_string())
}

#[test]
fn bytes_are_moved_and_counted() {
    let mut s = stats();
    let (mut pump, first) = Pump::start(Flow::Sent, false, 5);
    assert!(matches!(first, PumpAction::WriteLeftover));
    let (action, n) = pump.step(PumpEvent::Written, &mut s);
    assert!(matches!(action, PumpAction::Read));
    assert_eq!((n, s.upstream_tx), (5, 5));
    let (action, n) = pump.step(PumpEvent::Read(100), &mut s);
    assert!(matches!(action, PumpAction::Write(100)));
    assert_eq!((n, s.upstream_tx), (0, 5));
    let (action, n) = pump.step(PumpEvent::Written, &mut s);
    assert!(matches!(action, PumpAction::Read));
    assert_eq!((n, s.upstream_tx), (100, 105));
    assert!(s.traffic_active);
    let (action, n) = pump.step(PumpEvent::Read(0), &mut s);
    assert!(matches!(action, PumpAction::Finish));
    assert_eq!((n, s.upstream_tx, s.upstream_rx, s.direct_tx), (0, 105, 0, 0));
}

#[test]
fn each_direction_has_its_counter() {
    for (flow, direct) in
        [(Flow::Sent, true), (Flow::Sent, false), (Flow::Received, true), (Flow::Received, false)]
    {
        let mut s = stats();
        let (mut pump, first) = Pump::start(flow, direct, 0);
        assert!(matches!(first, PumpAction::Read));
        pump.step(PumpEvent::Read(7), &mut s);
        pump.step(PumpEvent::Written, &mut s);
        let expected = match (flow, direct) {
            (Flow::Sent, true) => (7, 0, 0, 0),
            (Flow::Received, true) => (0, 7, 0, 0),
            (Flow::Sent, false) => (0, 0, 7, 0),
            (Flow::Received, false) => (0, 0, 0, 7),
        };
        assert_eq!((s.direct_tx, s.direct_rx, s.upstream_tx, s.upstream_rx), expected);
    }
}

fn failure(flow: Flow, leftover: usize, events: Vec<PumpEvent<String>>) -> String {
    let mut s = stats();
    let (mut pump, _) = Pump::start(flow, true, leftover);
    for e in events {
        if let (PumpAction::Fail(e), n) = pump.step(e, &mut s) {
            assert_eq!(n, 0);
            return e.message();
        }
    }
    panic!("no failure")
}

#[test]
fn failures_have_messages() {
    assert_eq!(
        failure(Flow::Sent, 1, vec![PumpEvent::TimedOut]),
        "Target leftover write timeout (30s)"
    );
    assert_eq!(
        failure(Flow::Sent, 0, vec![PumpEvent::Read(1), PumpEvent::TimedOut]),
        "Target write timeout (30s)"
    );
    assert_eq!(
        failure(Flow::Received, 0, vec![PumpEvent::Read(1), PumpEvent::TimedOut]),
        "Client write timeout (30s)"
    );
    assert_eq!(
        failure(Flow::Sent, 0, vec![PumpEvent::TimedOut]),
        "Client connection idle timeout"
    );
    assert_eq!(
        failure(Flow::Received, 0, vec![PumpEvent::TimedOut]),
        "Target connection idle timeout"
    );
    assert_eq!(
        failure(Flow::Received, 0, vec![PumpEvent::Failed("reset".to_string())]),
        "reset"
    );
    assert_eq!(PumpError::Io("x".to_string()).message(), "x");
}

#[test]
fn what_is_not_written_is_not_counted() {
    let mut s = stats();
    let (mut pump, _) = Pump::start(Flow::Sent, true, 3);
    pump.step(PumpEvent::Written, &mut s);
    pump.step(PumpEvent::Read(10), &mut s);
    pump.step(PumpEvent::Failed("gone".to_string()), &mut s);
    assert_eq!(s.direct_tx, 3);
    // Nothing happens after the end.
    let (action, n) = pump.step(PumpEvent::Written, &mut s);
    assert!(matches!(action, PumpAction::Finish));
    assert_eq!((n, s.direct_tx), (0, 3));
}

#[test]
fn a_relay_ends() {
    let ok = || Ok::<(), String>(());
    let mut r = Relay::new();
    assert!(matches!(r.step(RelayEvent::ClientDone(ok())), RelayAction::Linger));
    assert!(matches!(r.step(RelayEvent::TargetDone(ok())), RelayAction::Closed));
    let mut r = Relay::new();
    assert!(matches!(r.step(RelayEvent::TargetDone(ok())), RelayAction::Linger));
    assert!(matches!(r.step(RelayEvent::ClientDone(ok())), RelayAction::Closed));
    let mut r = Relay::new();
    assert!(matches!(r.step(RelayEvent::TargetDone(ok())), RelayAction::Linger));
    assert!(matches!(r.step(RelayEvent::LingerOver), RelayAction::Closed));
    let mut r = Relay::new();
    r.step(RelayEvent::ClientDone(ok()));
    match r.step(RelayEvent::TargetDone(Err("late".to_string()))) {
        RelayAction::Failed(m) => assert_eq!(m, "late"),
        other => panic!("{:?}", other),
    }
    let mut r = Relay::new();
    match r.step(RelayEvent::ClientDone(Err("early".to_string()))) {
        RelayAction::Failed(m) => assert_eq!(m, "early"),
        other => panic!("{:?}", other),
    }
}
