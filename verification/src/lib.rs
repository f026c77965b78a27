//! A rule-based proxy forwarder.

pub mod buffer;
pub mod clock;
pub mod config;
pub mod connection_tracker;
pub mod etw_resolver;
pub mod http;
pub mod inbound;
pub mod logger;
pub mod matcher;
pub mod net;
pub mod proxy_client;
pub mod proxy_server;
pub mod relay;
pub mod rules;
pub mod socks4;
pub mod socks5;
pub mod stats;
pub mod text;
pub mod traffic_window;
pub mod tray;
pub mod util;
