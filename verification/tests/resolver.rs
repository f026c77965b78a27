use simple_forwarder::etw_resolver::{
    after_search, lookup_port_to_pid, program_name, ExeResolver, LookupStep, SearchNext,
    SocketEntry,
};

fn tcp(local_port: u16, remote_port: u16, pid: Option<u32>) -> SocketEntry {
    SocketEntry::Tcp { local_port, remote_port, pid }
}

#[test]
fn the_client_end_is_found() {
    let sockets = vec![
        SocketEntry::Udp,
        tcp(1080, 50000, Some(7)),
        tcp(50001, 1080, Some(8)),
        tcp(50000, 1080, Some(9)),
        tcp(50000, 1080, Some(10)),
        tcp(50002, 1080, None),
        tcp(50003, 1080, Some(4)),
        tcp(50004, 1080, Some(0)),
    ];
    assert_eq!(lookup_port_to_pid(&sockets, 1080, 50000), Some(9));
    assert_eq!(lookup_port_to_pid(&sockets, 1080, 50001), Some(8));
    assert_eq!(lookup_port_to_pid(&sockets, 1080, 50002), None);
    assert_eq!(lookup_port_to_pid(&sockets, 1080, 50003), None);
    assert_eq!(lookup_port_to_pid(&sockets, 1080, 50004), None);
    assert_eq!(lookup_port_to_pid(&sockets, 1080, 50005), None);
    assert_eq!(lookup_port_to_pid(&sockets, 1081, 50000), None);
}

#[test]
fn searches_take_their_course() {
    let mut r = ExeResolver::new(1080);
    assert_eq!(r.listen_port(), 1080);
    assert!(matches!(r.lookup(5), LookupStep::ScanSockets));
    assert!(matches!(r.on_scan(5, None), LookupStep::NotFound));
    assert!(matches!(r.lookup(5), LookupStep::ScanSockets));
    assert!(matches!(r.on_scan(5, Some(77)), LookupStep::ResolvePid(77)));
    assert!(matches!(r.lookup(5), LookupStep::ResolvePid(77)));
    assert!(matches!(r.on_resolved(5, None), LookupStep::NotFound));
    assert!(matches!(r.lookup(5), LookupStep::ResolvePid(77)));
    match r.on_resolved(5, Some("app".to_string())) {
        LookupStep::Found(exe) => assert_eq!(exe, "app"),
        other => panic!("{:?}", other),
    }
    match r.lookup(5) {
        LookupStep::Found(exe) => assert_eq!(exe, "app"),
        other => panic!("{:?}", other),
    }
    assert!(matches!(r.lookup(6), LookupStep::ScanSockets));
    r.remove(6);
    assert!(matches!(r.lookup(5), LookupStep::Found(_)));
    r.remove(5);
    assert!(matches!(r.lookup(5), LookupStep::ScanSockets));
}

#[test]
fn trace_events_name_processes() {
    let mut r = ExeResolver::new(1080);
    r.on_event(11, 1, Some(1080), Some(5));
    r.on_event(10, 1, Some(1081), Some(5));
    r.on_event(10, 1, None, Some(5));
    r.on_event(10, 1, Some(1080), None);
    r.on_event(10, 1, Some(1080), Some(0));
    assert!(matches!(r.lookup(5), LookupStep::ScanSockets));
    assert!(matches!(r.lookup(0), LookupStep::ScanSockets));
    r.on_event(10, 1, Some(1080), Some(5));
    assert!(matches!(r.lookup(5), LookupStep::ResolvePid(1)));
    r.on_event(10, 2, Some(1080), Some(5));
    assert!(matches!(r.lookup(5), LookupStep::ResolvePid(1)));
}

#[test]
fn searches_are_repeated_once() {
    assert!(matches!(after_search(false, None), SearchNext::Retry(50)));
    assert!(matches!(after_search(true, None), SearchNext::GiveUp));
    for is_retry in [true, false] {
        match after_search(is_retry, Some("x".to_string())) {
            SearchNext::Show(exe) => assert_eq!(exe, "x"),
            other => panic!("{:?}", other),
        }
    }
}

#[test]
fn program_names_are_trimmed() {
    assert_eq!(program_name("firefox\n"), "firefox");
    assert_eq!(program_name(""), "");
}
