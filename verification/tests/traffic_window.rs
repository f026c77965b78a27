use simple_forwarder::connection_tracker::ConnectionTracker;
use simple_forwarder::traffic_window::{
    centered, Cell, ColumnKind, RowDiff, TickPlan, TrafficDataSource, TrafficRow, WindowTicker,
    HIGHLIGHT_MIN_BYTES,
};
use std::sync::atomic::Ordering;

fn row(id: u64, sent: u64, received: u64) -> TrafficRow {
    TrafficRow {
        id,
        source_ip: "s".to_string(),
        outbound_target: "t".to_string(),
        exe_name: "e".to_string(),
        proxy_protocol: "p".to_string(),
        proxy: "via".to_string(),
        start_time: "then".to_string(),
        status: "connected".to_string(),
        bytes_sent: sent,
        bytes_received: received,
    }
}

fn rows(ids: &[u64]) -> Vec<TrafficRow> {
    ids.iter().map(|id| row(*id, 0, 0)).collect()
}

fn text(cell: Cell<String>) -> String {
    match cell {
        Cell::Text(t) => t,
        other => panic!("{:?}", other),
    }
}

#[test]
fn cells_show_their_column() {
    let t = TrafficDataSource::new(vec![row(1, 2048, 1)]);
    assert_eq!(t.num_rows(), 1);
    let expected = ["s", "t", "e", "p", "via", "then", "connected", "2.00 KB", "1 B"];
    for (column, value) in expected.iter().enumerate() {
        assert_eq!(text(t.cell(column as i32, 0)), *value);
    }
    assert!(matches!(t.cell(9, 0), Cell::Plain));
    assert!(matches!(t.cell(10, 0), Cell::Plain));
    assert_eq!(text(t.cell(11, 0)), "");
    assert_eq!(text(t.cell(-1, 0)), "");
    for row in [-1, 1, i32::MAX, i32::MIN] {
        assert_eq!(text(t.cell(0, row)), "");
        assert!(matches!(t.cell(9, row), Cell::Plain));
        assert!(matches!(t.cell(10, row), Cell::Plain));
    }
    assert!(TrafficDataSource::column_type(9) == ColumnKind::Color);
    assert!(TrafficDataSource::column_type(10) == ColumnKind::Color);
    assert!(TrafficDataSource::column_type(8) == ColumnKind::Text);
}

fn highlighted(t: &TrafficDataSource, column: i32) -> Vec<usize> {
    (0..t.num_rows()).filter(|i| matches!(t.cell(column, *i as i32), Cell::Highlight)).collect()
}

#[test]
fn the_busiest_rows_are_highlighted() {
    let m = HIGHLIGHT_MIN_BYTES;
    let counts = [m, m + 1, m + 9, 0, m + 5, m + 3, m + 7, m + 2];
    let t = TrafficDataSource::new(
        counts.iter().enumerate().map(|(i, n)| row(i as u64 + 1, *n, 0)).collect(),
    );
    assert_eq!(highlighted(&t, 9), [2, 4, 5, 6, 7]);
    assert!(highlighted(&t, 10).is_empty());
    // Fewer than five that have enough.
    let t = TrafficDataSource::new(vec![row(1, 0, m + 1), row(2, 0, m), row(3, 0, m + 2)]);
    assert_eq!(highlighted(&t, 10), [0, 2]);
    // Of rows with equal counters the upper ones are highlighted.
    let t = TrafficDataSource::new((1..9).map(|id| row(id, m + 1, 0)).collect());
    assert_eq!(highlighted(&t, 9), [0, 1, 2, 3, 4]);
}

/// Applies a diff to a list of ids as a display does.
fn apply(old: &[u64], new: &[u64], diff: &RowDiff) -> Vec<u64> {
    let mut shown = old.to_vec();
    for i in &diff.deleted {
        shown.remove(*i);
    }
    for i in &diff.inserted {
        shown.insert(*i, new[*i]);
    }
    shown
}

#[test]
fn diffs_bring_the_display_up_to_date() {
    let lists: Vec<Vec<u64>> = (0..64u64)
        .map(|bits| (0..6).filter(|i| bits >> i & 1 == 1).map(|i| i + 1).collect())
        .collect();
    for old in &lists {
        for new in &lists {
            let mut t = TrafficDataSource::new(rows(old));
            let diff = t.refresh(rows(new));
            assert_eq!(&apply(old, new, &diff), new);
            assert!(diff.changed.is_empty());
            assert!(diff.deleted.windows(2).all(|w| w[0] > w[1]));
            assert!(diff.inserted.windows(2).all(|w| w[0] < w[1]));
        }
    }
    // The ids need not rise: those that stay keep their order.
    let (old, new) = (vec![9, 2, 7, 4], vec![5, 9, 1, 7, 4, 3]);
    let mut t = TrafficDataSource::new(rows(&old));
    let diff = t.refresh(rows(&new));
    assert_eq!(apply(&old, &new, &diff), new);
}

#[test]
fn changed_rows_are_told() {
    let mut t = TrafficDataSource::new(vec![row(1, 0, 0), row(2, 0, 0), row(3, 0, 0)]);
    let mut changed = row(3, 0, 0);
    changed.status = "closed".to_string();
    let diff = t.refresh(vec![row(2, 0, 0), changed, row(4, 0, 0)]);
    assert_eq!(diff.deleted, [0]);
    assert_eq!(diff.inserted, [2]);
    assert_eq!(diff.changed, [1]);
    assert_eq!(text(t.cell(6, 1)), "closed");
}

#[test]
fn rank_changes_are_told() {
    let m = HIGHLIGHT_MIN_BYTES;
    let mut t = TrafficDataSource::new((1..6).map(|id| row(id, m + id, 0)).collect());
    assert_eq!(highlighted(&t, 9), [0, 1, 2, 3, 4]);
    // A sixth row takes the highlight of the first, whose own data stays.
    let mut next: Vec<TrafficRow> = (1..6).map(|id| row(id, m + id, 0)).collect();
    next.push(row(6, m + 100, 0));
    let diff = t.refresh(next);
    assert_eq!(diff.inserted, [5]);
    assert_eq!(diff.changed, [0]);
    assert_eq!(highlighted(&t, 9), [1, 2, 3, 4, 5]);
}

#[test]
fn every_field_counts() {
    let base = || row(1, 1, 1);
    let edits: Vec<fn(&mut TrafficRow)> = vec![
        |r| r.source_ip.push('x'),
        |r| r.outbound_target.push('x'),
        |r| r.exe_name.push('x'),
        |r| r.proxy_protocol.push('x'),
        |r| r.proxy.push('x'),
        |r| r.start_time.push('x'),
        |r| r.status.push('x'),
        |r| r.bytes_sent += 1,
        |r| r.bytes_received += 1,
        |r| r.id += 1,
    ];
    assert!(base().same(&base()));
    for edit in edits {
        let mut r = base();
        edit(&mut r);
        assert!(!r.same(&base()));
    }
}

#[test]
fn absorbing_keeps_the_highlights() {
    let m = HIGHLIGHT_MIN_BYTES;
    let mut t = TrafficDataSource::new(vec![row(1, m + 1, 0), row(2, 0, 0)]);
    t.absorb(vec![row(1, 0, 0), row(2, m + 1, 0)]);
    assert_eq!(highlighted(&t, 9), [0]);
    assert_eq!(text(t.cell(7, 0)), "0 B");
}

#[test]
fn rows_come_from_connections() {
    let mut tracker = ConnectionTracker::new();
    let (id, sent, received) =
        tracker.register("src".to_string(), "dst".to_string(), "HTTP".to_string());
    tracker.set_proxy(id, "direct".to_string());
    tracker.set_exe_name(id, "app".to_string());
    tracker.set_error(id, "oops");
    sent.fetch_add(3, Ordering::Relaxed);
    received.fetch_add(4, Ordering::Relaxed);
    let snap = tracker.snapshot();
    let r = TrafficRow::of(&snap[0]);
    assert_eq!(r.id, id);
    assert_eq!(
        [&r.source_ip, &r.outbound_target, &r.exe_name, &r.proxy_protocol, &r.proxy, &r.status],
        ["src", "dst", "app", "HTTP", "direct", "error: oops"]
    );
    assert_eq!((r.bytes_sent, r.bytes_received), (3, 4));
    let other = TrafficRow::with_counts(&snap[0], 3, 5);
    assert_eq!(other.bytes_received, 5);
    assert!(!r.same(&other));
    assert!(r.same(&TrafficRow::of(&snap[0])));
}

#[test]
fn ticks_are_planned() {
    let mut w = WindowTicker::new();
    assert!(w.tick(false, true, Some((9, 9))) == TickPlan::Hide);
    assert!(w.tick(true, false, None) == TickPlan::Refresh { hold_redraws: false });
    // The first size is no change.
    assert!(w.tick(true, true, Some((10, 20))) == TickPlan::Refresh { hold_redraws: true });
    assert!(w.tick(true, true, Some((10, 20))) == TickPlan::Refresh { hold_redraws: true });
    assert!(w.tick(true, true, Some((11, 20))) == TickPlan::Absorb);
    assert!(w.tick(true, true, Some((11, 20))) == TickPlan::Refresh { hold_redraws: true });
    assert!(w.tick(true, true, Some((11, 21))) == TickPlan::Absorb);
    assert!(w.tick(true, true, None) == TickPlan::Refresh { hold_redraws: true });
    assert_eq!((w.prev_width, w.prev_height), (11, 21));
}

#[test]
fn windows_are_centered() {
    assert_eq!(centered(1920, 1100), 410);
    assert_eq!(centered(1081, 500), 290);
    assert_eq!(centered(800, 1101), (800 - 1101) / 2);
    assert_eq!(centered(i32::MAX, i32::MIN), i32::MAX);
    assert_eq!(centered(i32::MIN, i32::MAX), -i32::MAX);
}
