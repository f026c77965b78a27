use serde_yaml::Value;
use simple_forwarder::config::{
    default_flush_count, default_flush_interval_secs, default_listen_addr, default_listen_port,
    default_log_level, default_log_type, startup_error_text, Config, ListenConfig, LogConfig,
    LogType, Rule, SocketAddr, YamlParseError,
};
use simple_forwarder::net::IpAddr;

fn text_at(v: &Value, default: String) -> String {
    v.as_str().map(|s| s.to_string()).unwrap_or(default)
}

fn read_config(yaml: &str) -> Result<Config, YamlParseError> {
    let root: Value = serde_yaml::from_str(yaml).map_err(|e: serde_yaml::Error| {
        let location = e.location().map(|l| (l.line(), l.column()));
        YamlParseError::located("config.yaml".to_string(), location, e.to_string())
    })?;
    let log = &root["log"];
    let listen = &root["listen"];
    let log_type = match log["log_type"].as_str() {
        Some("console") => LogType::Console,
        Some("file") => LogType::File,
        Some("none") => LogType::Off,
        Some(other) => panic!("no kind of log: {}", other),
        None => default_log_type(),
    };
    let mut rules = Vec::new();
    if let Some(list) = root["rules"].as_sequence() {
        for rule in list {
            let mut match_patterns = Vec::new();
            if let Some(patterns) = rule["match_patterns"].as_sequence() {
                for p in patterns {
                    match_patterns.push(p.as_str().unwrap().to_string());
                }
            }
            let forward_to = rule["forward_to"].as_str().unwrap().to_string();
            rules.push(Rule { match_patterns, forward_to });
        }
    }
    Ok(Config {
        log: LogConfig {
            log_type,
            file: log["file"].as_str().map(|s| s.to_string()),
            level: text_at(&log["level"], default_log_level()),
            flush_interval_secs: log["flush_interval_secs"]
                .as_u64()
                .unwrap_or(default_flush_interval_secs()),
            flush_count: log["flush_count"]
                .as_u64()
                .map(|n| n as usize)
                .unwrap_or(default_flush_count()),
        },
        listen: ListenConfig {
            addr: text_at(&listen["addr"], default_listen_addr()),
            port: listen["port"].as_u64().map(|n| n as u16).unwrap_or(default_listen_port()),
        },
        rules,
    })
}

#[test]
fn test_config_parsing() {
    let yaml = r#"
log:
  log_type: console
  level: info

listen:
  addr: "127.0.0.1"
  port: 1080

rules:
  - match_patterns:
      - "*.google.com"
    forward_to: "socks5://127.0.0.1:1080"
"#;

    let config = read_config(yaml).unwrap();
    assert!(matches!(config.log.log_type, LogType::Console));
    assert_eq!(config.log.level, "info");
    assert_eq!(config.log.flush_interval_secs, 5); // default
    assert_eq!(config.log.flush_count, 100); // default

    assert_eq!(config.listen.addr, "127.0.0.1");
    assert_eq!(config.listen.port, 1080);
    let addr = config.get_listen_addr().unwrap();
    assert_eq!(addr.ip, IpAddr::V4([127, 0, 0, 1]));
    assert_eq!(addr.port, 1080);
    assert_eq!(addr.text(), "127.0.0.1:1080");

    assert_eq!(config.rules.len(), 1);
    assert_eq!(config.rules[0].match_patterns[0], "*.google.com");
    assert_eq!(config.rules[0].forward_to, "socks5://127.0.0.1:1080");
}

#[test]
fn test_config_defaults() {
    let yaml = r#"
log:
  file: "app.log"

listen:
  port: 8080

rules: []
"#;

    let config = read_config(yaml).unwrap();
    assert!(matches!(config.log.log_type, LogType::Off)); // default
    assert_eq!(config.log.level, "warn"); // default
    assert_eq!(config.listen.addr, "127.0.0.1"); // default
    assert_eq!(config.listen.port, 8080);
}

#[test]
fn test_yaml_syntax_error_reports_line_and_column() {
    // `@` cannot start a YAML token.
    let yaml = "log:\n@invalid\n";
    let err = read_config(yaml).unwrap_err();
    assert_eq!(err.line, Some(2));
    assert_eq!(err.column, Some(1));
    assert!(err.path.contains("config.yaml"));
}

#[test]
fn test_yaml_syntax_error_dialog_text_includes_location() {
    let err = YamlParseError {
        path: "D:\\app\\config.yaml".to_string(),
        line: Some(12),
        column: Some(5),
        message: "found unexpected end of stream".to_string(),
    };
    let text = err.dialog_text();
    assert!(text.contains("D:\\app\\config.yaml"));
    assert!(text.contains("Line: 12"));
    assert!(text.contains("Column: 5"));
    assert!(text.contains("found unexpected end of stream"));
}

#[test]
fn test_yaml_error_without_location_omits_line_column() {
    let err = YamlParseError {
        path: "config.yaml".to_string(),
        line: None,
        column: None,
        message: "EOF while parsing a value".to_string(),
    };
    let text = err.dialog_text();
    assert!(text.contains("config.yaml"));
    assert!(!text.contains("Line:"));
    assert!(!text.contains("Column:"));
    assert!(text.contains("EOF while parsing a value"));
}

#[test]
fn parse_error_texts_are_exact() {
    let err = YamlParseError::located("c.yaml".to_string(), Some((3, 7)), "bad".to_string());
    assert_eq!(
        err.dialog_text(),
        "A syntax error was found in:\n\nc.yaml\n\nLine: 3\nColumn: 7\n\nbad"
    );
    assert_eq!(err.text(), "Failed to parse c.yaml: syntax error at line 3, column 7: bad");
    let err = YamlParseError::located("c.yaml".to_string(), None, "bad".to_string());
    assert_eq!(err.dialog_text(), "Failed to parse:\n\nc.yaml\n\nbad");
    assert_eq!(err.text(), "Failed to parse c.yaml: bad");
    let half = YamlParseError {
        path: "c.yaml".to_string(),
        line: Some(1),
        column: None,
        message: "bad".to_string(),
    };
    assert_eq!(half.text(), "Failed to parse c.yaml: bad");
}

#[test]
fn both_texts_end_with_the_message() {
    let err = YamlParseError::located("c.yaml".to_string(), Some((3, 7)), "bad".to_string());
    assert!(err.dialog_text().ends_with("bad"));
    assert!(err.text().ends_with("bad"));
}

#[test]
fn startup_error_prefers_the_dialog_text() {
    let err = YamlParseError::located("c.yaml".to_string(), None, "bad".to_string());
    assert_eq!(startup_error_text(Some(&err), "other"), "Failed to parse:\n\nc.yaml\n\nbad");
    assert_eq!(
        startup_error_text(None, "no port"),
        "Simple Forwarder failed to start:\n\nno port"
    );
}

#[test]
fn listen_address_is_checked() {
    let listen = ListenConfig { addr: "localhost".to_string(), port: 1 };
    let config = Config {
        log: LogConfig {
            log_type: LogType::Off,
            file: None,
            level: "warn".to_string(),
            flush_interval_secs: 5,
            flush_count: 100,
        },
        listen,
        rules: vec![],
    };
    let err = config.get_listen_addr().unwrap_err();
    assert_eq!(err.message(), "Invalid listen address: localhost");
}

#[test]
fn ipv6_listen_address_stands_in_brackets() {
    let listen = ListenConfig { addr: "::1".to_string(), port: 1080 };
    let ip: IpAddr = "::1".parse().unwrap();
    let addr = listen.socket_addr(Some(ip)).unwrap();
    assert_eq!(addr.text(), "[::1]:1080");
    assert!(listen.socket_addr(None).is_err());
    let wild = SocketAddr { ip: IpAddr::V4([0, 0, 0, 0]), port: 0, scope_id: 0 };
    assert_eq!(wild.text(), "0.0.0.0:0");
}

#[test]
fn interfaces_stand_in_the_brackets() {
    let ip: IpAddr = "fe80::1".parse().unwrap();
    for (scope_id, expected) in [
        (0, "[fe80::1]:50000"),
        (3, "[fe80::1%3]:50000"),
        (u32::MAX, "[fe80::1%4294967295]:50000"),
    ] {
        assert_eq!(SocketAddr { ip, port: 50000, scope_id }.text(), expected);
    }
    // An address of four octets has no interface.
    let plain = SocketAddr { ip: IpAddr::V4([10, 0, 0, 1]), port: 80, scope_id: 12 };
    assert_eq!(plain.text(), "10.0.0.1:80");
}

#[test]
fn defaults_are_as_documented() {
    assert_eq!(default_flush_interval_secs(), 5);
    assert_eq!(default_flush_count(), 100);
    assert_eq!(default_log_level(), "warn");
    assert!(default_log_type() == LogType::Off);
    assert_eq!(default_listen_addr(), "127.0.0.1");
    assert_eq!(default_listen_port(), 1080);
}
