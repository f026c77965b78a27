use simple_forwarder::config::{LogConfig, LogType};
use simple_forwarder::logger::{log_line, plan_logging, FlushPolicy, LogError, LogPlan};

fn config(log_type: LogType, file: Option<&str>) -> LogConfig {
    LogConfig {
        log_type,
        file: file.map(|f| f.to_string()),
        level: "warn".to_string(),
        flush_interval_secs: 5,
        flush_count: 100,
    }
}

#[test]
fn logging_is_planned() {
    assert!(matches!(plan_logging(&config(LogType::Off, None), false), Ok(LogPlan::Silent)));
    assert!(matches!(plan_logging(&config(LogType::Off, None), true), Ok(LogPlan::Console)));
    for debug in [true, false] {
        assert!(matches!(
            plan_logging(&config(LogType::Console, None), debug),
            Ok(LogPlan::Console)
        ));
        match plan_logging(&config(LogType::File, Some("a.log")), debug) {
            Ok(LogPlan::File { path, flush_count, flush_interval_secs }) => {
                assert_eq!((path.as_str(), flush_count, flush_interval_secs), ("a.log", 100, 5))
            }
            other => panic!("{:?}", other),
        }
        match plan_logging(&config(LogType::File, None), debug) {
            Err(e) => {
                assert!(e == LogError::MissingFile);
                assert_eq!(e.message(), "Log file path is required when log_type is file");
            }
            other => panic!("{:?}", other),
        }
    }
}

#[test]
fn files_are_flushed_by_count_and_by_time() {
    let mut p = FlushPolicy::new(3, 5, 0);
    assert_eq!(p.flush_interval_nanos, 5_000_000_000);
    assert!(!p.on_write(7, 1));
    assert!(!p.on_write(7, 2));
    assert!(p.on_write(7, 3));
    p.on_flushed(3);
    assert_eq!((p.count, p.last_flush), (0, 3));
    assert!(!p.on_write(7, 5_000_000_002));
    assert!(p.on_write(7, 5_000_000_003));
    // A flush that failed leaves the count.
    assert_eq!(p.count, 2);
    let mut p = FlushPolicy::new(0, 5, 10);
    assert!(p.on_write(7, 0));
    let mut p = FlushPolicy::new(9, 0, 10);
    assert!(p.on_write(7, 0));
}

#[test]
fn few_writes_are_pending() {
    let mut p = FlushPolicy::new(4, 1, 0);
    for now in 0..100u128 {
        if p.on_write(7, now) {
            p.on_flushed(now);
        }
        assert!(p.count < 4);
    }
}

#[test]
fn every_nth_write_is_flushed() {
    let mut p = FlushPolicy::new(3, 1, 0);
    for i in 1..=20u128 {
        // A write of no bytes in between changes nothing.
        assert!(!p.on_write(0, i));
        let due = p.on_write(1, i);
        assert_eq!(due, i % 3 == 0);
        if due {
            p.on_flushed(i);
        }
        assert_eq!(p.count as u128, i % 3);
    }
    // The interval since the flush at 18 has passed.
    assert!(!p.on_write(0, 1_000_000_018));
    assert!(p.count == 2);
    let mut q = FlushPolicy::new(9, 1, 18);
    assert!(!q.on_write(1, 1_000_000_017));
    assert!(q.on_write(1, 1_000_000_018));
    q.on_flushed(1_000_000_018);
    for i in 1..=8u128 {
        assert!(!q.on_write(1, 1_000_000_018 + i));
    }
    assert!(q.on_write(1, 1_000_000_027));
}

#[test]
fn log_lines_have_their_form() {
    assert_eq!(log_line("T", "<", "WARN", ">", "m::n", "text"), "[T <WARN > m::n] text\n");
    assert_eq!(log_line("T", "", "ERROR", "", "m", "x"), "[T ERROR m] x\n");
    assert_eq!(log_line("", "", "", "", "", ""), format!("[{} {:5} {}] {}\n", "", "", "", ""));
    let style = format!("{:5}", "INFO");
    assert!(log_line("T", "", "INFO", "", "m", "x").contains(&style));
}
