use simple_forwarder::stats::{Flow, TrafficStats};
use simple_forwarder::tray::{
    app_name, autostart_matches, check_autostart_status, create_simple_icon, format_duration,
    format_with_commas, menu_action, message_action, quoted_exe_path, registry_change,
    registry_value, rgba_to_bgra, stats_line, stats_text, wide_text, ActivityIcon, HoverThrottle,
    MenuAction, MenuIds, MessageAction, ERROR_SUCCESS, HOVER_THROTTLE_NANOS, REG_SZ, WM_USER,
};

#[test]
fn icons_are_checkered() {
    for active in [true, false] {
        let icon = create_simple_icon(active);
        assert_eq!(icon.len(), 32 * 32 * 4);
        let color: [u8; 3] = if active { [0, 255, 0] } else { [100, 100, 100] };
        for y in 0..32 {
            for x in 0..32 {
                let p = &icon[(y * 32 + x) * 4..][..4];
                if (x + y) % 2 == 0 {
                    assert_eq!(p, [color[0], color[1], color[2], 255]);
                } else {
                    assert_eq!(p, [0, 0, 0, 0]);
                }
            }
        }
    }
}

#[test]
fn colors_are_exchanged() {
    assert_eq!(rgba_to_bgra(&[1, 2, 3, 4, 5, 6, 7, 8]), [3, 2, 1, 4, 7, 6, 5, 8]);
    assert!(rgba_to_bgra(&[]).is_empty());
    let icon = create_simple_icon(true);
    assert_eq!(rgba_to_bgra(&rgba_to_bgra(&icon)), icon);
}

#[test]
fn the_icon_follows_traffic() {
    let mut icon = ActivityIcon::new();
    assert_eq!(icon.check(false), None);
    assert_eq!(icon.check(true), Some(true));
    assert_eq!(icon.check(true), None);
    assert_eq!(icon.check(false), Some(false));
    assert_eq!(icon.check(false), None);
}

#[test]
fn hovering_is_throttled() {
    let mut h = HoverThrottle::new(1000);
    assert!(!h.hover(1000 + HOVER_THROTTLE_NANOS));
    assert!(h.hover(1001 + HOVER_THROTTLE_NANOS));
    assert!(!h.hover(1002 + HOVER_THROTTLE_NANOS));
    assert!(!h.hover(0));
    assert_eq!(h.last_update, 1001 + HOVER_THROTTLE_NANOS);
}

#[test]
fn menu_items_have_actions() {
    let ids = MenuIds {
        quit: "1".to_string(),
        autostart: "2".to_string(),
        stats: "3".to_string(),
        open_dir: "4".to_string(),
        traffic: "5".to_string(),
    };
    assert!(menu_action(&ids, "1") == MenuAction::Quit);
    assert!(menu_action(&ids, "2") == MenuAction::ToggleAutostart);
    assert!(menu_action(&ids, "3") == MenuAction::ShowStats);
    assert!(menu_action(&ids, "4") == MenuAction::OpenDirectory);
    assert!(menu_action(&ids, "5") == MenuAction::ShowTraffic);
    assert!(menu_action(&ids, "6") == MenuAction::Ignore);
}

#[test]
fn messages_have_actions() {
    assert!(message_action(WM_USER + 1, 0) == MessageAction::SetIcon(false));
    assert!(message_action(WM_USER + 1, 5) == MessageAction::SetIcon(true));
    assert!(message_action(WM_USER + 2, 0) == MessageAction::Quit);
    assert!(message_action(WM_USER + 3, 0) == MessageAction::UpdateTooltip);
    assert!(message_action(WM_USER, 0) == MessageAction::Dispatch);
    assert!(message_action(0x10, 1) == MessageAction::Dispatch);
}

#[test]
fn numbers_are_grouped() {
    let cases = [
        (0, "0"),
        (12, "12"),
        (999, "999"),
        (1000, "1,000"),
        (123456, "123,456"),
        (1234567, "1,234,567"),
        (usize::MAX, "18,446,744,073,709,551,615"),
    ];
    for (n, text) in cases {
        assert_eq!(format_with_commas(n), text);
        assert_eq!(format_with_commas(n).replace(',', ""), n.to_string());
    }
}

#[test]
fn durations_are_spelled_out() {
    let cases = [
        (0, "0 seconds"),
        (1, "1 second"),
        (2, "2 seconds"),
        (60, "1 minute"),
        (61, "1 minute 1 second"),
        (3600, "1 hour"),
        (7322, "2 hours 2 minutes 2 seconds"),
        (86400, "1 day"),
        (90061, "1 day 1 hour 1 minute 1 second"),
        (172800 + 59, "2 days 59 seconds"),
    ];
    for (secs, text) in cases {
        assert_eq!(format_duration(secs), text);
    }
}

#[test]
fn shown_durations_add_up() {
    for secs in [1u64, 59, 3599, 86399, 123456, 999999999, u64::MAX] {
        let shown = format_duration(secs);
        let words: Vec<&str> = shown.split(' ').collect();
        let mut sum = 0u64;
        for pair in words.chunks(2) {
            let n: u64 = pair[0].parse().unwrap();
            let unit = match pair[1].trim_end_matches('s') {
                "day" => 86400,
                "hour" => 3600,
                "minute" => 60,
                "second" => 1,
                other => panic!("{}", other),
            };
            sum += n * unit;
        }
        assert_eq!(sum, secs);
    }
}

#[test]
fn statistics_are_written_out() {
    let mut s = TrafficStats::new("127.0.0.1:1080".to_string());
    s.account(true, Flow::Received, 1);
    s.account(true, Flow::Sent, 2048);
    s.account(false, Flow::Received, 3);
    s.account(false, Flow::Sent, 4);
    assert_eq!(
        stats_text(&s, 61, 12345, true),
        "Listen Address: 127.0.0.1:1080\n\
         Run Time: 1 minute 1 second\n\
         Memory Usage: 12,345 KB (Private Mapping)\n\
         Privilege: Administrator\n\
         \n\
         - Direct Traffic -\n\
         Inbound: 1 B\n\
         Outbound: 2.00 KB\n\n\
         - Proxy Traffic -\n\
         Inbound: 3 B\n\
         Outbound: 4 B"
    );
    assert!(!stats_text(&s, 0, 0, false).contains("Privilege"));
    assert_eq!(stats_line(&s), "Traffic Stats — Direct: 1 B/2.00 KB | Proxy: 3 B/4 B");
    assert_eq!(app_name(), "Simple Forwarder");
}

#[test]
fn wide_texts_end_with_zero() {
    for s in ["", "abc", "C:\\dir\\\u{e4}.exe", "\u{1F600}x"] {
        let expected: Vec<u16> = s.encode_utf16().chain(std::iter::once(0)).collect();
        assert_eq!(wide_text(s), expected);
        let bytes: Vec<u8> = expected.iter().flat_map(|u| u.to_le_bytes()).collect();
        assert_eq!(registry_value(s), bytes);
    }
}

#[test]
fn paths_are_quoted() {
    let mut buffer = vec![0u16; 16];
    for (i, u) in "C:\\Long".encode_utf16().enumerate() {
        buffer[i] = u;
    }
    assert_eq!(quoted_exe_path("C:\\SHORT", &buffer, 7), "\"C:\\Long\"");
    assert_eq!(quoted_exe_path("C:\\SHORT", &buffer, 0), "\"C:\\SHORT\"");
    assert_eq!(quoted_exe_path("C:\\SHORT", &buffer, 16), "\"C:\\SHORT\"");
}

#[test]
fn registered_paths_are_recognised() {
    let path = "\"C:\\Dir\\App\u{1F600}.exe\"";
    let mut buffer = wide_text(path);
    let bytes = registry_value(path).len() as u32;
    buffer.resize(64, 0);
    assert!(autostart_matches(&buffer, bytes, path));
    assert!(autostart_matches(&buffer, bytes, &path.to_uppercase()));
    assert!(!autostart_matches(&buffer, bytes, "\"C:\\Dir\\Other.exe\""));
    assert!(!autostart_matches(&buffer, bytes - 2, path));
    assert!(autostart_matches(&buffer, 0, ""));
    assert!(autostart_matches(&buffer, 2, ""));
}

#[test]
fn autostart_reads_back_as_it_was_set() {
    let path = "\"C:\\\u{c4}\u{1F600}\\App.exe\"";
    let data = registry_change(path, true).unwrap();
    let mut buffer: Vec<u16> = data.chunks(2).map(|b| u16::from_le_bytes([b[0], b[1]])).collect();
    buffer.resize(64, 0xFFFF);
    let bytes = data.len() as u32;
    assert!(check_autostart_status(ERROR_SUCCESS, REG_SZ, &buffer, bytes, path));
    let lower = path.to_lowercase();
    assert!(check_autostart_status(ERROR_SUCCESS, REG_SZ, &buffer, bytes, &lower));
    assert!(!check_autostart_status(ERROR_SUCCESS, REG_SZ, &buffer, bytes, "other"));
    // A value that is missing, or is no text, is no such path.
    assert_eq!(registry_change(path, false), None);
    assert!(!check_autostart_status(2, REG_SZ, &buffer, bytes, path));
    assert!(!check_autostart_status(ERROR_SUCCESS, 3, &buffer, bytes, path));
    assert_eq!((ERROR_SUCCESS, REG_SZ), (0, 1));
}
