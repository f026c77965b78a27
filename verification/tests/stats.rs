use simple_forwarder::stats::{Flow, TrafficStats};

fn by_float(bytes: u64) -> String {
    const KB: u64 = 1024;
    const MB: u64 = KB * 1024;
    const GB: u64 = MB * 1024;
    const TB: u64 = GB * 1024;
    if bytes >= TB {
        format!("{:.2} TB", bytes as f64 / TB as f64)
    } else if bytes >= GB {
        format!("{:.2} GB", bytes as f64 / GB as f64)
    } else if bytes >= MB {
        format!("{:.2} MB", bytes as f64 / MB as f64)
    } else if bytes >= KB {
        format!("{:.2} KB", bytes as f64 / KB as f64)
    } else {
        format!("{} B", bytes)
    }
}

#[test]
fn sizes_are_shown_in_their_unit() {
    assert_eq!(TrafficStats::format_bytes(0), "0 B");
    assert_eq!(TrafficStats::format_bytes(1023), "1023 B");
    assert_eq!(TrafficStats::format_bytes(1024), "1.00 KB");
    assert_eq!(TrafficStats::format_bytes(1536), "1.50 KB");
    assert_eq!(TrafficStats::format_bytes(1024 * 1024 - 1), "1024.00 KB");
    assert_eq!(TrafficStats::format_bytes(1024 * 1024), "1.00 MB");
    assert_eq!(TrafficStats::format_bytes(10 * 1024 * 1024), "10.00 MB");
    assert_eq!(TrafficStats::format_bytes(1 << 30), "1.00 GB");
    assert_eq!(TrafficStats::format_bytes(1 << 40), "1.00 TB");
    assert_eq!(TrafficStats::format_bytes(u64::MAX), "16777216.00 TB");
}

#[test]
fn sizes_agree_with_double_precision() {
    // Ties, at a quarter and three quarters of a hundredth more.
    for k in 0..2048u64 {
        let n = 1024 + k;
        assert_eq!(TrafficStats::format_bytes(n), by_float(n), "{}", n);
    }
    let mut x: u64 = 88172645463325252;
    for i in 0..200_000u64 {
        x ^= x << 13;
        x ^= x >> 7;
        x ^= x << 17;
        let n = x >> (i % 64);
        assert_eq!(TrafficStats::format_bytes(n), by_float(n), "{}", n);
    }
    for shift in 52..64u32 {
        for d in 0..40u64 {
            let n = (1u64 << shift).wrapping_add(d).wrapping_sub(20);
            assert_eq!(TrafficStats::format_bytes(n), by_float(n), "{}", n);
        }
    }
    for d in 0..3000u64 {
        let n = u64::MAX - d;
        assert_eq!(TrafficStats::format_bytes(n), by_float(n), "{}", n);
    }
}

#[test]
fn shown_sizes_are_close() {
    for n in [1024u64, 1030, 123_456, 9_999_999, 5_000_000_000] {
        let shown = TrafficStats::format_bytes(n);
        let (value, unit) = shown.split_once(' ').unwrap();
        let scale = match unit {
            "KB" => 1u64 << 10,
            "MB" => 1 << 20,
            "GB" => 1 << 30,
            _ => panic!("{}", shown),
        };
        let value: f64 = value.parse().unwrap();
        assert!((value * scale as f64 - n as f64).abs() * 200.0 <= scale as f64 * 1.000001);
    }
}

#[test]
fn bytes_are_counted_apart() {
    let mut s = TrafficStats::new("127.0.0.1:1080".to_string());
    assert_eq!(s.listen_addr, "127.0.0.1:1080");
    assert!(!s.take_activity());
    s.account(true, Flow::Sent, 1);
    assert_eq!((s.direct_tx, s.direct_rx, s.upstream_tx, s.upstream_rx), (1, 0, 0, 0));
    s.account(true, Flow::Received, 2);
    s.account(false, Flow::Sent, 3);
    s.account(false, Flow::Received, 4);
    s.account(false, Flow::Received, 4);
    assert_eq!((s.direct_tx, s.direct_rx, s.upstream_tx, s.upstream_rx), (1, 2, 3, 8));
    assert!(s.take_activity());
    assert!(!s.take_activity());
    s.touch();
    assert!(s.take_activity());
}

#[test]
fn counters_start_over() {
    let mut s = TrafficStats::new(String::new());
    s.account(true, Flow::Sent, u64::MAX);
    s.account(true, Flow::Sent, 3);
    assert_eq!(s.direct_tx, 2);
}

#[test]
fn the_clock_runs() {
    let s = TrafficStats::new(String::new());
    let a = s.start_time.nanos();
    let b = s.start_time.nanos();
    assert!(a <= b);
}
