//! The configuration and its errors.

use crate::net;
use crate::net::{parse_ip, IpAddr};
use crate::text;
use crate::text::push_decimal;
use vstd::prelude::*;
use vstd::string::*;

verus! {

// ---------------------------------------------------------------------------
// Settings
// ---------------------------------------------------------------------------

/// The configuration.
#[derive(Clone, Debug)]
pub struct Config {
    pub log: LogConfig,
    pub listen: ListenConfig,
    pub rules: Vec<Rule>,
}

/// How to log.
#[derive(Clone, Debug)]
pub struct LogConfig {
    pub log_type: LogType,
    pub file: Option<String>,
    pub level: String,
    pub flush_interval_secs: u64,
    pub flush_count: usize,
}

/// Where the log goes.
#[derive(Clone, Copy, Debug, PartialEq, Eq, Structural)]
pub enum LogType {
    Console,
    File,
    /// Nowhere.
    Off,
}

/// Where to listen.
#[derive(Clone, Debug)]
pub struct ListenConfig {
    pub addr: String,
    pub port: u16,
}

/// A rule: destinations that match one of the patterns go through a proxy.
#[derive(Clone, Debug)]
pub struct Rule {
    pub match_patterns: Vec<String>,
    pub forward_to: String,
}

/// How often a log file is flushed where the configuration does not say, in seconds.
pub fn default_flush_interval_secs() -> (r: u64)
    ensures
        r == 5,
{
    5
}

/// After how many entries a log file is flushed where the configuration does not say.
pub fn default_flush_count() -> (r: usize)
    ensures
        r == 100,
{
    100
}

/// The least severe entries that are logged where the configuration does not say.
pub fn default_log_level() -> (r: String)
    ensures
        r@ == "warn"@,
{
    "warn".to_string()
}

/// Where the log goes where the configuration does not say.
pub fn default_log_type() -> (r: LogType)
    ensures
        r == LogType::Off,
{
    LogType::Off
}

/// The address to listen on where the configuration does not say.
pub fn default_listen_addr() -> (r: String)
    ensures
        r@ == "127.0.0.1"@,
{
    "127.0.0.1".to_string()
}

/// The port to listen on where the configuration does not say.
pub fn default_listen_port() -> (r: u16)
    ensures
        r == 1080,
{
    1080
}

// ---------------------------------------------------------------------------
// The address to listen on
// ---------------------------------------------------------------------------

/// An address and a port. An address of sixteen octets may be bound to an interface: `scope_id` is
/// the number of that, or 0. For other addresses it says nothing.
#[derive(Clone, Copy, Debug)]
pub struct SocketAddr {
    pub ip: IpAddr,
    pub port: u16,
    pub scope_id: u32,
}

/// The mark of an interface behind an address: none for 0.
pub open spec fn scope_text(scope_id: u32) -> Seq<char> {
    if scope_id == 0 {
        Seq::empty()
    } else {
        "%"@ + text::decimal(scope_id as nat)
    }
}

/// An address and a port as text: one of sixteen octets stands in brackets, with its interface.
pub open spec fn socket_text(a: SocketAddr) -> Seq<char> {
    let port = text::decimal(a.port as nat);
    match a.ip {
        IpAddr::V4(_) => net::address_text(a.ip) + ":"@ + port,
        IpAddr::V6(_) => "["@ + net::address_text(a.ip) + scope_text(a.scope_id) + "]:"@ + port,
    }
}

impl SocketAddr {
    /// The address and the port as text.
    pub fn text(&self) -> (r: String)
        ensures
            r@ == socket_text(*self),
    {
        match &self.ip {
            IpAddr::V4(_) => {
                let mut out = self.ip.text();
                out.append(":");
                push_decimal(&mut out, self.port as u64);
                out
            },
            IpAddr::V6(_) => {
                let mut out = "[".to_string();
                out.append(self.ip.text().as_str());
                if self.scope_id != 0 {
                    out.append("%");
                    push_decimal(&mut out, self.scope_id as u64);
                }
                out.append("]:");
                push_decimal(&mut out, self.port as u64);
                out
            },
        }
    }
}

/// Why a configuration cannot be used.
#[derive(Debug)]
pub enum ConfigError<T> {
    /// The address to listen on is none.
    InvalidListenAddress(T),
}

impl View for ConfigError<String> {
    type V = ConfigError<Seq<char>>;

    open spec fn view(&self) -> ConfigError<Seq<char>> {
        match self {
            ConfigError::InvalidListenAddress(addr) => ConfigError::InvalidListenAddress(addr@),
        }
    }
}

/// The message of a configuration error.
pub open spec fn config_error_text(e: ConfigError<Seq<char>>) -> Seq<char> {
    match e {
        ConfigError::InvalidListenAddress(addr) => "Invalid listen address: "@ + addr,
    }
}

impl ConfigError<String> {
    /// The message of the error.
    pub fn message(&self) -> (r: String)
        ensures
            r@ == config_error_text(self@),
    {
        match self {
            ConfigError::InvalidListenAddress(addr) => {
                let mut out = "Invalid listen address: ".to_string();
                out.append(addr.as_str());
                out
            },
        }
    }
}

/// The address to listen on, given what the configured text denotes.
pub open spec fn listen_target(addr: Seq<char>, port: u16, ip: Option<IpAddr>) -> Result<
    SocketAddr,
    ConfigError<Seq<char>>,
> {
    match ip {
        Some(ip) => Ok(SocketAddr { ip, port, scope_id: 0 }),
        None => Err(ConfigError::InvalidListenAddress(addr)),
    }
}

/// The view of the address to listen on.
pub open spec fn listen_view(r: Result<SocketAddr, ConfigError<String>>) -> Result<
    SocketAddr,
    ConfigError<Seq<char>>,
> {
    match r {
        Ok(a) => Ok(a),
        Err(e) => Err(e@),
    }
}

impl ListenConfig {
    /// The address to listen on, where `ip` is what the configured text denotes.
    pub fn socket_addr(&self, ip: Option<IpAddr>) -> (r: Result<SocketAddr, ConfigError<String>>)
        ensures
            listen_view(r) == listen_target(self.addr@, self.port, ip),
    {
        match ip {
            Some(ip) => Ok(SocketAddr { ip, port: self.port, scope_id: 0 }),
            None => Err(ConfigError::InvalidListenAddress(self.addr.clone())),
        }
    }
}

impl Config {
    /// The address to listen on.
    pub fn get_listen_addr(&self) -> (r: Result<SocketAddr, ConfigError<String>>)
        ensures
            listen_view(r) == listen_target(
                self.listen.addr@,
                self.listen.port,
                net::ip_syntax(self.listen.addr@),
            ),
    {
        self.listen.socket_addr(parse_ip(self.listen.addr.as_str()))
    }
}

// ---------------------------------------------------------------------------
// Errors in the file
// ---------------------------------------------------------------------------

/// A configuration file that cannot be parsed, and where.
#[derive(Clone, Debug)]
pub struct YamlParseError {
    pub path: String,
    pub line: Option<usize>,
    pub column: Option<usize>,
    pub message: String,
}

/// The text for the user.
pub open spec fn dialog_message(
    path: Seq<char>,
    line: Option<usize>,
    column: Option<usize>,
    message: Seq<char>,
) -> Seq<char> {
    if line is Some && column is Some {
        "A syntax error was found in:\n\n"@ + path + "\n\nLine: "@ + text::decimal(line->0 as nat)
            + "\nColumn: "@ + text::decimal(column->0 as nat) + "\n\n"@ + message
    } else {
        "Failed to parse:\n\n"@ + path + "\n\n"@ + message
    }
}

/// The text for the log.
pub open spec fn parse_error_text(
    path: Seq<char>,
    line: Option<usize>,
    column: Option<usize>,
    message: Seq<char>,
) -> Seq<char> {
    if line is Some && column is Some {
        "Failed to parse "@ + path + ": syntax error at line "@ + text::decimal(line->0 as nat)
            + ", column "@ + text::decimal(column->0 as nat) + ": "@ + message
    } else {
        "Failed to parse "@ + path + ": "@ + message
    }
}

/// The line and the column of a place in a file, where it is known.
pub open spec fn place_of(location: Option<(usize, usize)>) -> (Option<usize>, Option<usize>) {
    match location {
        Some(at) => (Some(at.0), Some(at.1)),
        None => (None, None),
    }
}

impl YamlParseError {
    /// An error with the place that the parser gave, where it gave one.
    pub fn located(path: String, location: Option<(usize, usize)>, message: String) -> (r:
        YamlParseError)
        ensures
            r.path == path,
            r.message == message,
            r.line == (match location {
                Some(at) => Some(at.0),
                None => None,
            }),
            r.column == (match location {
                Some(at) => Some(at.1),
                None => None,
            }),
            (r.line, r.column) == place_of(location),
    {
        let line: Option<usize> = match location {
            Some(at) => Some(at.0),
            None => None,
        };
        let column: Option<usize> = match location {
            Some(at) => Some(at.1),
            None => None,
        };
        YamlParseError { path, line, column, message }
    }

    /// The text for the user.
    pub fn dialog_text(&self) -> (r: String)
        ensures
            r@ == dialog_message(self.path@, self.line, self.column, self.message@),
    {
        match (self.line, self.column) {
            (Some(line), Some(column)) => {
                let mut out = "A syntax error was found in:\n\n".to_string();
                out.append(self.path.as_str());
                out.append("\n\nLine: ");
                push_decimal(&mut out, line as u64);
                out.append("\nColumn: ");
                push_decimal(&mut out, column as u64);
                out.append("\n\n");
                out.append(self.message.as_str());
                out
            },
            _ => {
                let mut out = "Failed to parse:\n\n".to_string();
                out.append(self.path.as_str());
                out.append("\n\n");
                out.append(self.message.as_str());
                out
            },
        }
    }

    /// The text for the log.
    pub fn text(&self) -> (r: String)
        ensures
            r@ == parse_error_text(self.path@, self.line, self.column, self.message@),
    {
        let mut out = "Failed to parse ".to_string();
        out.append(self.path.as_str());
        match (self.line, self.column) {
            (Some(line), Some(column)) => {
                out.append(": syntax error at line ");
                push_decimal(&mut out, line as u64);
                out.append(", column ");
                push_decimal(&mut out, column as u64);
                out.append(": ");
                out.append(self.message.as_str());
                out
            },
            _ => {
                out.append(": ");
                out.append(self.message.as_str());
                out
            },
        }
    }
}

/// What the user is told when the program cannot start: of an error in the configuration file
/// its own text, of any other error its message.
pub open spec fn startup_message(dialog: Option<Seq<char>>, message: Seq<char>) -> Seq<char> {
    match dialog {
        Some(text) => text,
        None => "Simple Forwarder failed to start:\n\n"@ + message,
    }
}

/// Writes what the user is told when the program cannot start.
pub fn startup_error_text(parse_error: Option<&YamlParseError>, message: &str) -> (r: String)
    ensures
        r@ == startup_message(
            match parse_error {
                Some(e) => Some(dialog_message(e.path@, e.line, e.column, e.message@)),
                None => None,
            },
            message@,
        ),
{
    match parse_error {
        Some(e) => e.dialog_text(),
        None => {
            let mut out = "Simple Forwarder failed to start:\n\n".to_string();
            out.append(message);
            out
        },
    }
}

/// Law: the user and the log are told of the place of an error, or of none, together; and both
/// texts end with the message of the parser.
pub proof fn both_texts_carry_the_message(
    path: Seq<char>,
    line: Option<usize>,
    column: Option<usize>,
    message: Seq<char>,
)
    ensures
        dialog_message(path, line, column, message).skip(
            dialog_message(path, line, column, message).len() - message.len(),
        ) == message,
        parse_error_text(path, line, column, message).skip(
            parse_error_text(path, line, column, message).len() - message.len(),
        ) == message,
{
    let a = dialog_message(path, line, column, message);
    let b = parse_error_text(path, line, column, message);
    assert(a.skip(a.len() - message.len()) =~= message);
    assert(b.skip(b.len() - message.len()) =~= message);
}

/// Law: an address and its port stand with a colon between them; one of sixteen octets is in
/// brackets, with a percent sign and the number of its interface where it has one.
pub proof fn socket_texts_have_their_form(o: [u8; 4], p: [u8; 16], port: u16, scope_id: u32)
    ensures
        socket_text(SocketAddr { ip: IpAddr::V4(o), port, scope_id }) == net::address_text(
            IpAddr::V4(o),
        ) + ":"@ + text::decimal(port as nat),
        scope_id == 0 ==> socket_text(SocketAddr { ip: IpAddr::V6(p), port, scope_id }) == "["@
            + net::colon_hex(p@) + "]:"@ + text::decimal(port as nat),
        scope_id != 0 ==> socket_text(SocketAddr { ip: IpAddr::V6(p), port, scope_id }) == "["@
            + net::colon_hex(p@) + "%"@ + text::decimal(scope_id as nat) + "]:"@ + text::decimal(
            port as nat,
        ),
{
    let none = Seq::<char>::empty();
    assert("["@ + net::colon_hex(p@) + none =~= "["@ + net::colon_hex(p@));
    assert("["@ + net::colon_hex(p@) + ("%"@ + text::decimal(scope_id as nat)) =~= "["@
        + net::colon_hex(p@) + "%"@ + text::decimal(scope_id as nat));
}

/// Law: the program listens on the address that the configured text denotes and on the configured
/// port; a text that denotes none is named in the error.
pub proof fn listening_goes_by_the_configuration(addr: Seq<char>, port: u16, ip: IpAddr)
    ensures
        listen_target(addr, port, Some(ip)) matches Ok(a) && a.ip == ip && a.port == port
            && a.scope_id == 0,
        listen_target(addr, port, None) == Err::<SocketAddr, ConfigError<Seq<char>>>(
            ConfigError::InvalidListenAddress(addr),
        ),
{
}

/// Law: the user and the log are told of the line and the column of an error just where both are
/// known.
pub proof fn places_of_errors_are_told(
    path: Seq<char>,
    line: usize,
    column: usize,
    message: Seq<char>,
    told: Seq<char>,
)
    ensures
        parse_error_text(path, Some(line), Some(column), message) == "Failed to parse "@ + path
            + ": syntax error at line "@ + text::decimal(line as nat) + ", column "@
            + text::decimal(column as nat) + ": "@ + message,
        parse_error_text(path, None, None, message) == "Failed to parse "@ + path + ": "@ + message,
        parse_error_text(path, Some(line), None, message) == parse_error_text(
            path,
            None,
            None,
            message,
        ),
        dialog_message(path, Some(line), Some(column), message)
            == "A syntax error was found in:\n\n"@ + path + "\n\nLine: "@ + text::decimal(
            line as nat,
        ) + "\nColumn: "@ + text::decimal(column as nat) + "\n\n"@ + message,
        dialog_message(path, None, None, message) == "Failed to parse:\n\n"@ + path + "\n\n"@
            + message,
        startup_message(Some(told), message) == told,
        startup_message(None, message) == "Simple Forwarder failed to start:\n\n"@ + message,
{
}

/// Law: of a place that the parser gave the line comes first and then the column, and both are
/// told; an address that is none is shown.
pub proof fn places_are_line_and_column(
    line: usize,
    column: usize,
    path: Seq<char>,
    message: Seq<char>,
    addr: Seq<char>,
)
    ensures
        ({
            let at = place_of(Some((line, column)));
            parse_error_text(path, at.0, at.1, message) == "Failed to parse "@ + path
                + ": syntax error at line "@ + text::decimal(line as nat) + ", column "@
                + text::decimal(column as nat) + ": "@ + message
        }),
        ({
            let at = place_of(None);
            parse_error_text(path, at.0, at.1, message) == "Failed to parse "@ + path + ": "@
                + message
        }),
        config_error_text(ConfigError::InvalidListenAddress(addr)) == "Invalid listen address: "@
            + addr,
{
}

} // verus!
