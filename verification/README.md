# Simple Forwarder

A proxy forwarder: it serves SOCKS5, SOCKS4, SOCKS4a and HTTP proxy clients on one port and sends
their connections on, by rules, through SOCKS5, SOCKS5h or HTTP proxies, or straight to their
destination.

`src/` is the library. It is written for Verus: every function states in its contract what it
returns or changes, and Verus proves it. Of readings of the clock and of shared counters nothing
is claimed; functions that take such a reading as an argument say what follows from it. What the library has from other crates stands in small
functions marked `external_body`, whose doc comments say what is claimed of the outside code.
Public proof functions whose comments begin with "Law:" state what holds across functions.

- `inbound`, `socks5`, `socks4`, `http`, `util`: the handshakes with clients
- `proxy_client`: upstream proxies, and the handshakes with them
- `matcher`, `net`, `rules`: patterns, addresses and rules
- `proxy_server`, `relay`: the course of a connection
- `connection_tracker`, `traffic_window`: the connections that are shown
- `stats`, `tray`: counters, texts and icons
- `etw_resolver`: the programs behind connections
- `config`, `logger`: settings and the log
- `text`, `buffer`, `clock`: what the others share

`app/` is the program: it opens sockets, files and windows, and asks the library what to do.
`tests/` runs the library.

## Patterns

A pattern with a slash is an address range such as `192.168.1.0/24` or `2001:db8::/32`. An address
stands for itself. Anything else is a domain, in which `*` stands for any characters and `?` for
one: `*.google.com` matches `www.google.com`, and not `google.com`. The first rule with a pattern
that matches decides; without one the connection is made directly.
