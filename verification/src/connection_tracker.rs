//! The connections that the traffic window shows.

use crate::clock::{local_timestamp, Stopwatch};
use std::collections::{HashMap, VecDeque};
use std::sync::atomic::AtomicU64;
use std::sync::Arc;
use vstd::prelude::*;
use vstd::string::*;

verus! {

/// The number of connections that are kept.
pub const MAX_CONNECTIONS: usize = 5000;

/// How long a connection is kept once it is closed, in nanoseconds.
pub const CLOSED_RETENTION_NANOS: u128 = 5_000_000_000;

/// Of how many snapshots one cleans up.
pub const CLEANUP_PERIOD: u64 = 5;

// ---------------------------------------------------------------------------
// Status and protocol
// ---------------------------------------------------------------------------

/// The status of a connection.
#[derive(Debug, PartialEq, Eq)]
pub enum ConnStatus {
    Connecting,
    Connected,
    Closed,
    Error(String),
}

/// What a status is.
pub ghost enum StatusView {
    Connecting,
    Connected,
    Closed,
    Error(Seq<char>),
}

impl View for ConnStatus {
    type V = StatusView;

    open spec fn view(&self) -> StatusView {
        match self {
            ConnStatus::Connecting => StatusView::Connecting,
            ConnStatus::Connected => StatusView::Connected,
            ConnStatus::Closed => StatusView::Closed,
            ConnStatus::Error(message) => StatusView::Error(message@),
        }
    }
}

/// The text of a status.
pub open spec fn status_text(s: StatusView) -> Seq<char> {
    match s {
        StatusView::Connecting => "connecting"@,
        StatusView::Connected => "connected"@,
        StatusView::Closed => "closed"@,
        StatusView::Error(message) => "error: "@ + message,
    }
}

impl Clone for ConnStatus {
    fn clone(&self) -> (r: ConnStatus)
        ensures
            r@ == self@,
    {
        match self {
            ConnStatus::Connecting => ConnStatus::Connecting,
            ConnStatus::Connected => ConnStatus::Connected,
            ConnStatus::Closed => ConnStatus::Closed,
            ConnStatus::Error(message) => ConnStatus::Error(message.clone()),
        }
    }
}

impl ConnStatus {
    /// The text of the status.
    pub fn text(&self) -> (r: String)
        ensures
            r@ == status_text(self@),
    {
        match self {
            ConnStatus::Connecting => "connecting".to_string(),
            ConnStatus::Connected => "connected".to_string(),
            ConnStatus::Closed => "closed".to_string(),
            ConnStatus::Error(message) => {
                let mut out = "error: ".to_string();
                out.append(message.as_str());
                out
            },
        }
    }
}

/// The protocol that a client speaks.
#[derive(Clone, Copy, Debug, PartialEq, Eq, Structural)]
pub enum Protocol {
    Socks4,
    Socks4a,
    Socks5,
    Socks5h,
    Http,
    Direct,
}

impl Protocol {
    /// The name of the protocol.
    pub open spec fn name(self) -> Seq<char> {
        match self {
            Protocol::Socks4 => "SOCKS4"@,
            Protocol::Socks4a => "SOCKS4a"@,
            Protocol::Socks5 => "SOCKS5"@,
            Protocol::Socks5h => "SOCKS5h"@,
            Protocol::Http => "HTTP"@,
            Protocol::Direct => "Direct"@,
        }
    }

    /// The name of the protocol.
    pub fn text(&self) -> (r: String)
        ensures
            r@ == self.name(),
    {
        match self {
            Protocol::Socks4 => "SOCKS4".to_string(),
            Protocol::Socks4a => "SOCKS4a".to_string(),
            Protocol::Socks5 => "SOCKS5".to_string(),
            Protocol::Socks5h => "SOCKS5h".to_string(),
            Protocol::Http => "HTTP".to_string(),
            Protocol::Direct => "Direct".to_string(),
        }
    }
}

// ---------------------------------------------------------------------------
// Connections
// ---------------------------------------------------------------------------

/// What is known of a connection. The counters are shared with the tasks that move its bytes.
#[derive(Debug)]
pub struct ConnectionInfo {
    pub id: u64,
    pub source_ip: String,
    pub outbound_target: String,
    pub proxy_protocol: String,
    pub proxy: String,
    pub start_time: String,
    pub status: ConnStatus,
    pub bytes_sent: Arc<AtomicU64>,
    pub bytes_received: Arc<AtomicU64>,
    pub exe_name: String,
    /// When the connection was closed, in nanoseconds on the clock of its tracker.
    pub closed_at: Option<u128>,
}

/// What a connection is: its texts, its status, the handles of its counters, and when it was
/// closed.
pub ghost struct InfoView {
    pub id: u64,
    pub source_ip: Seq<char>,
    pub outbound_target: Seq<char>,
    pub proxy_protocol: Seq<char>,
    pub proxy: Seq<char>,
    pub start_time: Seq<char>,
    pub status: StatusView,
    pub bytes_sent: Arc<AtomicU64>,
    pub bytes_received: Arc<AtomicU64>,
    pub exe_name: Seq<char>,
    pub closed_at: Option<u128>,
}

impl View for ConnectionInfo {
    type V = InfoView;

    open spec fn view(&self) -> InfoView {
        InfoView {
            id: self.id,
            source_ip: self.source_ip@,
            outbound_target: self.outbound_target@,
            proxy_protocol: self.proxy_protocol@,
            proxy: self.proxy@,
            start_time: self.start_time@,
            status: self.status@,
            bytes_sent: self.bytes_sent,
            bytes_received: self.bytes_received,
            exe_name: self.exe_name@,
            closed_at: self.closed_at,
        }
    }
}

impl Clone for ConnectionInfo {
    fn clone(&self) -> (r: ConnectionInfo)
        ensures
            r@ == self@,
    {
        ConnectionInfo {
            id: self.id,
            source_ip: self.source_ip.clone(),
            outbound_target: self.outbound_target.clone(),
            proxy_protocol: self.proxy_protocol.clone(),
            proxy: self.proxy.clone(),
            start_time: self.start_time.clone(),
            status: self.status.clone(),
            bytes_sent: self.bytes_sent.clone(),
            bytes_received: self.bytes_received.clone(),
            exe_name: self.exe_name.clone(),
            closed_at: self.closed_at,
        }
    }
}

/// A connection that ended in this way at `now`.
pub open spec fn ended(e: InfoView, status: StatusView, now: u128) -> InfoView {
    InfoView { status, closed_at: Some(now), ..e }
}

/// A change of a connection.
enum Change {
    ExeName(String),
    Proxy(String),
    Target(String),
    Protocol(String),
    Connected,
    Ended(ConnStatus, u128),
}

impl Change {
    spec fn applied(self, e: InfoView) -> InfoView {
        match self {
            Change::ExeName(text) => InfoView { exe_name: text@, ..e },
            Change::Proxy(text) => InfoView { proxy: text@, ..e },
            Change::Target(text) => InfoView { outbound_target: text@, ..e },
            Change::Protocol(text) => InfoView { proxy_protocol: text@, ..e },
            Change::Connected => InfoView { status: StatusView::Connected, ..e },
            Change::Ended(status, now) => ended(e, status@, now),
        }
    }

    fn apply(self, info: ConnectionInfo) -> (r: ConnectionInfo)
        ensures
            r@ == self.applied(info@),
    {
        let mut info = info;
        match self {
            Change::ExeName(text) => {
                info.exe_name = text;
            },
            Change::Proxy(text) => {
                info.proxy = text;
            },
            Change::Target(text) => {
                info.outbound_target = text;
            },
            Change::Protocol(text) => {
                info.proxy_protocol = text;
            },
            Change::Connected => {
                info.status = ConnStatus::Connected;
            },
            Change::Ended(status, now) => {
                info.status = status;
                info.closed_at = Some(now);
            },
        }
        info
    }
}

/// Whether a connection is still kept: it is open, or was closed a short while ago.
pub open spec fn is_kept(e: InfoView, now: u128) -> bool {
    match e.closed_at {
        None => true,
        Some(t) => now - t < CLOSED_RETENTION_NANOS,
    }
}

// ---------------------------------------------------------------------------
// The tracker
// ---------------------------------------------------------------------------

/// What a tracker holds: its connections in the order they came, the id of the next one, and the
/// number of snapshots taken.
#[verifier::ext_equal]
pub ghost struct TrackerView {
    pub entries: Seq<InfoView>,
    pub next_id: u64,
    pub snapshots: u64,
}

/// A register of connections, bounded in number, which forgets those closed for a while.
#[derive(Debug)]
pub struct ConnectionTracker {
    connections: HashMap<u64, Arc<ConnectionInfo>>,
    order: VecDeque<u64>,
    next_id: u64,
    snapshot_count: u64,
    clock: Stopwatch,
}

impl View for ConnectionTracker {
    type V = TrackerView;

    closed spec fn view(&self) -> TrackerView {
        TrackerView {
            entries: entries_of(self.connections@, self.order@),
            next_id: self.next_id,
            snapshots: self.snapshot_count,
        }
    }
}

/// The connections with these ids.
spec fn entries_of(connections: Map<u64, Arc<ConnectionInfo>>, order: Seq<u64>) -> Seq<InfoView> {
    Seq::new(order.len(), |i: int| connections[order[i]]@)
}

/// Whether ids and connections belong together, each id once, in rising order.
spec fn matched(connections: Map<u64, Arc<ConnectionInfo>>, order: Seq<u64>) -> bool {
    &&& forall|i: int, j: int| 0 <= i < j < order.len() ==> order[i] < order[j]
    &&& forall|i: int|
        0 <= i < order.len() ==> connections.contains_key(#[trigger] order[i])
            && connections[order[i]]@.id == order[i]
    &&& forall|id: u64| #[trigger] connections.contains_key(id) ==> order.contains(id)
}

/// The connections after one more, where the oldest give way.
pub open spec fn admitted(entries: Seq<InfoView>, e: InfoView) -> Seq<InfoView> {
    let all = entries.push(e);
    if all.len() > MAX_CONNECTIONS {
        all.skip(all.len() - MAX_CONNECTIONS)
    } else {
        all
    }
}

/// The connection that a registration makes.
pub open spec fn fresh_info(
    id: u64,
    source_ip: Seq<char>,
    outbound_target: Seq<char>,
    proxy_protocol: Seq<char>,
    start_time: Seq<char>,
    bytes_sent: Arc<AtomicU64>,
    bytes_received: Arc<AtomicU64>,
) -> InfoView {
    InfoView {
        id,
        source_ip,
        outbound_target,
        proxy_protocol,
        proxy: "connecting..."@,
        start_time,
        status: StatusView::Connecting,
        bytes_sent,
        bytes_received,
        exe_name: ""@,
        closed_at: None,
    }
}

/// A tracker after a registration.
pub open spec fn registered(t: TrackerView, e: InfoView) -> TrackerView {
    TrackerView {
        entries: admitted(t.entries, e),
        next_id: (t.next_id + 1) as u64,
        snapshots: t.snapshots,
    }
}

/// A tracker after a change of one connection; an id that is not there changes nothing.
pub open spec fn changed(
    t: TrackerView,
    id: u64,
    change: spec_fn(InfoView) -> InfoView,
) -> TrackerView {
    TrackerView {
        entries: t.entries.map_values(
            |e: InfoView|
                if e.id == id {
                    change(e)
                } else {
                    e
                },
        ),
        ..t
    }
}

/// A tracker after one connection ended in this way at `now`.
pub open spec fn with_ended(t: TrackerView, id: u64, status: StatusView, now: u128) -> TrackerView {
    changed(t, id, |e: InfoView| ended(e, status, now))
}

/// A tracker after the name of the program behind a connection was set.
pub open spec fn with_exe_name(t: TrackerView, id: u64, text: Seq<char>) -> TrackerView {
    changed(t, id, |e: InfoView| InfoView { exe_name: text, ..e })
}

/// A tracker after the proxy of a connection was set.
pub open spec fn with_proxy(t: TrackerView, id: u64, text: Seq<char>) -> TrackerView {
    changed(t, id, |e: InfoView| InfoView { proxy: text, ..e })
}

/// A tracker after the destination of a connection was set.
pub open spec fn with_target(t: TrackerView, id: u64, text: Seq<char>) -> TrackerView {
    changed(t, id, |e: InfoView| InfoView { outbound_target: text, ..e })
}

/// A tracker after the protocol of a connection was set.
pub open spec fn with_protocol(t: TrackerView, id: u64, text: Seq<char>) -> TrackerView {
    changed(t, id, |e: InfoView| InfoView { proxy_protocol: text, ..e })
}

/// A tracker after a connection was marked as connected.
pub open spec fn with_connected(t: TrackerView, id: u64) -> TrackerView {
    changed(t, id, |e: InfoView| InfoView { status: StatusView::Connected, ..e })
}

/// The connections that a snapshot shows.
pub open spec fn shown(t: TrackerView, now: u128) -> Seq<InfoView> {
    if t.snapshots % CLEANUP_PERIOD == 0 {
        t.entries.filter(|e: InfoView| is_kept(e, now))
    } else {
        t.entries
    }
}

/// A tracker after a snapshot.
pub open spec fn after_snapshot(t: TrackerView, now: u128) -> TrackerView {
    TrackerView {
        entries: shown(t, now),
        next_id: t.next_id,
        snapshots: if t.snapshots == u64::MAX {
            0
        } else {
            (t.snapshots + 1) as u64
        },
    }
}

/// What shared connections are.
pub open spec fn infos(v: Seq<Arc<ConnectionInfo>>) -> Seq<InfoView> {
    v.map_values(|a: Arc<ConnectionInfo>| a@)
}

impl ConnectionTracker {
    /// Whether the tracker is sound: at most so many connections, in the order they came.
    pub closed spec fn wf(self) -> bool {
        &&& matched(self.connections@, self.order@)
        &&& self.order@.len() <= MAX_CONNECTIONS
        &&& forall|i: int| 0 <= i < self.order@.len() ==> #[trigger] self.order@[i] < self.next_id
    }

    /// An empty tracker.
    pub fn new() -> (r: ConnectionTracker)
        ensures
            r.wf(),
            r@ == (TrackerView { entries: Seq::empty(), next_id: 1, snapshots: 0 }),
    {
        broadcast use vstd::std_specs::hash::group_hash_axioms;

        let r = ConnectionTracker {
            connections: HashMap::new(),
            order: VecDeque::new(),
            next_id: 1,
            snapshot_count: 0,
            clock: Stopwatch::start(),
        };
        assert(r@.entries =~= Seq::empty());
        r
    }

    /// The id of the next connection.
    pub fn next_id(&self) -> (r: u64)
        ensures
            r == self@.next_id,
    {
        self.next_id
    }

    /// Registers a connection that came at `start_time`. Gives its id and its counters.
    pub fn register_at(
        &mut self,
        source_ip: String,
        outbound_target: String,
        proxy_protocol: String,
        start_time: String,
    ) -> (r: (u64, Arc<AtomicU64>, Arc<AtomicU64>))
        requires
            old(self).wf(),
            old(self)@.next_id < u64::MAX,
        ensures
            final(self).wf(),
            r.0 == old(self)@.next_id,
            final(self)@ == registered(
                old(self)@,
                fresh_info(
                    r.0,
                    source_ip@,
                    outbound_target@,
                    proxy_protocol@,
                    start_time@,
                    r.1,
                    r.2,
                ),
            ),
    {
        broadcast use vstd::std_specs::hash::group_hash_axioms;

        let id: u64 = self.next_id;
        let bytes_sent = Arc::new(AtomicU64::new(0));
        let bytes_received = Arc::new(AtomicU64::new(0));
        let info = ConnectionInfo {
            id,
            source_ip,
            outbound_target,
            proxy_protocol,
            proxy: "connecting...".to_string(),
            start_time,
            status: ConnStatus::Connecting,
            bytes_sent: bytes_sent.clone(),
            bytes_received: bytes_received.clone(),
            exe_name: "".to_string(),
            closed_at: None,
        };
        let ghost e = info@;
        let ghost order0 = self.order@;
        let ghost conns0 = self.connections@;
        self.next_id = id + 1;
        self.connections.insert(id, Arc::new(info));
        self.order.push_back(id);
        let ghost conns1 = self.connections@;
        proof {
            assert(!order0.contains(id));
            assert(matched(conns1, order0.push(id))) by {
                assert forall|k: u64| #[trigger] conns1.contains_key(k) implies order0.push(
                    id,
                ).contains(k) by {
                    if k != id {
                        let i = choose|i: int| 0 <= i < order0.len() && order0[i] == k;
                        assert(order0.push(id)[i] == k);
                    } else {
                        assert(order0.push(id)[order0.len() as int] == k);
                    }
                }
            }
            assert(entries_of(conns1, order0.push(id)) =~= entries_of(conns0, order0).push(e));
        }
        if self.order.len() > MAX_CONNECTIONS {
            if let Some(oldest) = self.order.pop_front() {
                self.connections.remove(&oldest);
                proof {
                    let all = order0.push(id);
                    assert(self.order@ =~= all.skip(1));
                    assert forall|k: u64| #[trigger] self.connections@.contains_key(
                        k,
                    ) implies self.order@.contains(k) by {
                        let i = choose|i: int| 0 <= i < all.len() && all[i] == k;
                        assert(all.skip(1)[i - 1] == k);
                    }
                    assert(entries_of(self.connections@, self.order@) =~= entries_of(
                        conns1,
                        all,
                    ).skip(1));
                }
            }
        }
        (id, bytes_sent, bytes_received)
    }

    /// Registers a connection that came just now. Gives its id and its counters.
    pub fn register(
        &mut self,
        source_ip: String,
        outbound_target: String,
        proxy_protocol: String,
    ) -> (r: (u64, Arc<AtomicU64>, Arc<AtomicU64>))
        requires
            old(self).wf(),
            old(self)@.next_id < u64::MAX,
        ensures
            final(self).wf(),
            r.0 == old(self)@.next_id,
            exists|start_time: Seq<char>|
                final(self)@ == registered(
                    old(self)@,
                    #[trigger] fresh_info(
                        r.0,
                        source_ip@,
                        outbound_target@,
                        proxy_protocol@,
                        start_time,
                        r.1,
                        r.2,
                    ),
                ),
    {
        self.register_at(source_ip, outbound_target, proxy_protocol, local_timestamp())
    }

    /// Copies the connection with this id.
    fn find(&self, id: u64) -> (r: Option<ConnectionInfo>)
        requires
            self.wf(),
        ensures
            match r {
                Some(info) => self.connections@.contains_key(id) && info@
                    == self.connections@[id]@,
                None => !self.connections@.contains_key(id),
            },
    {
        broadcast use vstd::std_specs::hash::group_hash_axioms;

        match self.connections.get(&id) {
            Some(info) => Some((**info).clone()),
            None => None,
        }
    }

    /// Puts a connection in the place of the one with its id.
    fn replace(&mut self, id: u64, info: ConnectionInfo)
        requires
            old(self).wf(),
            old(self).connections@.contains_key(id),
            info@.id == id,
        ensures
            final(self).wf(),
            final(self)@.entries.len() == old(self)@.entries.len(),
            forall|i: int|
                0 <= i < old(self)@.entries.len() ==> #[trigger] final(self)@.entries[i] == (if old(
                    self,
                )@.entries[i].id == id {
                    info@
                } else {
                    old(self)@.entries[i]
                }),
            final(self)@.next_id == old(self)@.next_id,
            final(self)@.snapshots == old(self)@.snapshots,
    {
        broadcast use vstd::std_specs::hash::group_hash_axioms;

        self.connections.insert(id, Arc::new(info));
    }

    /// Changes the connection with this id, where there is one.
    fn modify(&mut self, id: u64, change: Change)
        requires
            old(self).wf(),
        ensures
            final(self).wf(),
            final(self)@ == changed(old(self)@, id, |e: InfoView| change.applied(e)),
    {
        match self.find(id) {
            Some(info) => {
                let info = change.apply(info);
                self.replace(id, info);
            },
            None => {
                assert forall|i: int| 0 <= i < self@.entries.len() implies #[trigger] self@.entries[i].id
                    != id by {
                    assert(self.connections@.contains_key(self.order@[i]));
                }
            },
        }
        assert(self@ =~= changed(old(self)@, id, |e: InfoView| change.applied(e)));
    }

    /// Sets the name of the program behind a connection.
    pub fn set_exe_name(&mut self, id: u64, exe_name: String)
        requires
            old(self).wf(),
        ensures
            final(self).wf(),
            final(self)@ == changed(
                old(self)@,
                id,
                |e: InfoView| InfoView { exe_name: exe_name@, ..e },
            ),
            final(self)@ == with_exe_name(old(self)@, id, exe_name@),
    {
        let ghost text = exe_name@;
        self.modify(id, Change::ExeName(exe_name));
        assert(self@ =~= changed(old(self)@, id, |e: InfoView| InfoView { exe_name: text, ..e }));
        assert(self@ =~= with_exe_name(old(self)@, id, text));
    }

    /// Sets the proxy that a connection goes through.
    pub fn set_proxy(&mut self, id: u64, proxy: String)
        requires
            old(self).wf(),
        ensures
            final(self).wf(),
            final(self)@ == changed(
                old(self)@,
                id,
                |e: InfoView| InfoView { proxy: proxy@, ..e },
            ),
            final(self)@ == with_proxy(old(self)@, id, proxy@),
    {
        let ghost text = proxy@;
        self.modify(id, Change::Proxy(proxy));
        assert(self@ =~= changed(old(self)@, id, |e: InfoView| InfoView { proxy: text, ..e }));
        assert(self@ =~= with_proxy(old(self)@, id, text));
    }

    /// Sets the destination of a connection.
    pub fn set_outbound_target(&mut self, id: u64, target: String)
        requires
            old(self).wf(),
        ensures
            final(self).wf(),
            final(self)@ == changed(
                old(self)@,
                id,
                |e: InfoView| InfoView { outbound_target: target@, ..e },
            ),
            final(self)@ == with_target(old(self)@, id, target@),
    {
        let ghost text = target@;
        self.modify(id, Change::Target(target));
        assert(self@ =~= changed(old(self)@, id, |e: InfoView| InfoView { outbound_target: text, ..e }));
        assert(self@ =~= with_target(old(self)@, id, text));
    }

    /// Sets the protocol of a connection.
    pub fn set_proxy_protocol(&mut self, id: u64, protocol: String)
        requires
            old(self).wf(),
        ensures
            final(self).wf(),
            final(self)@ == changed(
                old(self)@,
                id,
                |e: InfoView| InfoView { proxy_protocol: protocol@, ..e },
            ),
            final(self)@ == with_protocol(old(self)@, id, protocol@),
    {
        let ghost text = protocol@;
        self.modify(id, Change::Protocol(protocol));
        assert(self@ =~= changed(old(self)@, id, |e: InfoView| InfoView { proxy_protocol: text, ..e }));
        assert(self@ =~= with_protocol(old(self)@, id, text));
    }

    /// Marks a connection as connected.
    pub fn set_connected(&mut self, id: u64)
        requires
            old(self).wf(),
        ensures
            final(self).wf(),
            final(self)@ == changed(
                old(self)@,
                id,
                |e: InfoView| InfoView { status: StatusView::Connected, ..e },
            ),
            final(self)@ == with_connected(old(self)@, id),
    {
        self.modify(id, Change::Connected);
        assert(self@ =~= changed(
            old(self)@,
            id,
            |e: InfoView| InfoView { status: StatusView::Connected, ..e },
        ));
        assert(self@ =~= with_connected(old(self)@, id));
    }

    /// Marks a connection as closed at `now`.
    pub fn set_closed_at(&mut self, id: u64, now: u128)
        requires
            old(self).wf(),
        ensures
            final(self).wf(),
            final(self)@ == with_ended(old(self)@, id, StatusView::Closed, now),
    {
        self.modify(id, Change::Ended(ConnStatus::Closed, now));
        assert(self@ =~= with_ended(old(self)@, id, StatusView::Closed, now));
    }

    /// Marks a connection as closed just now.
    pub fn set_closed(&mut self, id: u64)
        requires
            old(self).wf(),
        ensures
            final(self).wf(),
            exists|now: u128|
                final(self)@ == #[trigger] with_ended(old(self)@, id, StatusView::Closed, now),
    {
        let now: u128 = self.clock.nanos();
        self.set_closed_at(id, now);
    }

    /// Marks a connection as failed at `now`.
    pub fn set_error_at(&mut self, id: u64, err: &str, now: u128)
        requires
            old(self).wf(),
        ensures
            final(self).wf(),
            final(self)@ == with_ended(old(self)@, id, StatusView::Error(err@), now),
    {
        self.modify(id, Change::Ended(ConnStatus::Error(err.to_string()), now));
        assert(self@ =~= with_ended(old(self)@, id, StatusView::Error(err@), now));
    }

    /// Marks a connection as failed just now.
    pub fn set_error(&mut self, id: u64, err: &str)
        requires
            old(self).wf(),
        ensures
            final(self).wf(),
            exists|now: u128|
                final(self)@ == #[trigger] with_ended(
                    old(self)@,
                    id,
                    StatusView::Error(err@),
                    now,
                ),
    {
        let now: u128 = self.clock.nanos();
        self.set_error_at(id, err, now);
    }

    /// Forgets the connections that were closed a while ago, and gives the others.
    fn clean_up(&mut self, now: u128) -> (r: Vec<Arc<ConnectionInfo>>)
        requires
            old(self).wf(),
        ensures
            final(self).wf(),
            final(self)@.entries == old(self)@.entries.filter(|e: InfoView| is_kept(e, now)),
            final(self)@.next_id == old(self)@.next_id,
            final(self)@.snapshots == old(self)@.snapshots,
            infos(r@) == final(self)@.entries,
    {
        broadcast use vstd::std_specs::hash::group_hash_axioms;

        let ghost pred = |e: InfoView| is_kept(e, now);
        let ghost conns0 = self.connections@;
        let ghost order0 = self.order@;
        let ghost entries = self@.entries;
        let mut live: VecDeque<u64> = VecDeque::new();
        let mut out: Vec<Arc<ConnectionInfo>> = Vec::new();
        let mut i: usize = 0;
        proof {
            reveal(Seq::filter);
            assert(entries.take(0) =~= Seq::empty());
            assert(infos(out@) =~= entries.take(0).filter(pred));
            assert(order0.skip(0) =~= order0);
            assert forall|k: u64| order0.contains(k) implies conns0.contains_key(k) by {
                let j = choose|j: int| 0 <= j < order0.len() && order0[j] == k;
                assert(conns0.contains_key(order0[j]));
            }
        }
        while i < self.order.len()
            invariant
                pred == (|e: InfoView| is_kept(e, now)),
                entries == entries_of(conns0, order0),
                matched(conns0, order0),
                order0.len() <= MAX_CONNECTIONS,
                forall|j: int| 0 <= j < order0.len() ==> #[trigger] order0[j] < self.next_id,
                i <= order0.len(),
                self.order@ == order0,
                self.next_id == old(self).next_id,
                self.snapshot_count == old(self).snapshot_count,
                live@.len() == out@.len(),
                infos(out@) == entries.take(i as int).filter(pred),
                forall|j: int, k: int| 0 <= j < k < live@.len() ==> live@[j] < live@[k],
                forall|j: int|
                    0 <= j < live@.len() ==> order0.take(i as int).contains(#[trigger] live@[j])
                        && conns0[live@[j]] == out@[j],
                forall|k: u64| #[trigger]
                    self.connections@.contains_key(k) <==> live@.contains(k) || order0.skip(
                        i as int,
                    ).contains(k),
                forall|k: u64| #[trigger]
                    self.connections@.contains_key(k) ==> self.connections@[k] == conns0[k],
            decreases order0.len() - i,
        {
            let id: u64 = self.order[i];
            let ghost live0 = live@;
            let ghost e = entries[i as int];
            let ghost rest = order0.skip(i as int);
            let ghost next = order0.skip(i + 1);
            let ghost seen = order0.take(i as int);
            let ghost conns = self.connections@;
            proof {
                assert forall|k: u64| #[trigger] conns.contains_key(k) <==> live0.contains(k)
                    || rest.contains(k) by {
                    assert(self.connections@.contains_key(k) <==> conns.contains_key(k));
                }
                assert(rest[0] == id);
                assert(self.connections@.contains_key(id));
                assert(entries.take(i + 1).drop_last() =~= entries.take(i as int));
                assert(entries.take(i + 1).last() == e);
                reveal(Seq::filter);
                assert forall|k: u64| rest.contains(k) <==> k == id || next.contains(k) by {
                    if next.contains(k) {
                        let j = choose|j: int| 0 <= j < next.len() && next[j] == k;
                        assert(rest[j + 1] == k);
                    }
                    if rest.contains(k) && k != id {
                        let j = choose|j: int| 0 <= j < rest.len() && rest[j] == k;
                        assert(next[j - 1] == k);
                    }
                }
                assert forall|j: int| 0 <= j < live0.len() implies order0.take(i + 1).contains(
                    #[trigger] live0[j],
                ) && live0[j] < id by {
                    let m = choose|m: int| 0 <= m < seen.len() && seen[m] == live0[j];
                    assert(order0.take(i + 1)[m] == live0[j]);
                }
                assert(!next.contains(id));
                assert(order0.take(i + 1)[i as int] == id);
            }
            let found = match self.connections.get(&id) {
                Some(info) => Some(info.clone()),
                None => None,
            };
            if let Some(info) = found {
                let keep = match info.closed_at {
                    None => true,
                    Some(t) => now < t || now - t < CLOSED_RETENTION_NANOS,
                };
                if keep {
                    live.push_back(id);
                    out.push(info);
                    proof {
                        assert(infos(out@) =~= entries.take(i + 1).filter(pred));
                        assert(live@ =~= live0.push(id));
                        assert(self.connections@ == conns);
                    }
                } else {
                    self.connections.remove(&id);
                    proof {
                        assert(self.connections@ =~= conns.remove(id));
                        assert(infos(out@) =~= entries.take(i + 1).filter(pred));
                    }
                }
            }
            proof {
                assert(!live0.contains(id));
                lemma_live_step(conns, self.connections@, live0, live@, rest, next, id);
            }
            i = i + 1;
        }
        self.order = live;
        proof {
            assert(entries.take(i as int) =~= entries);
            assert(order0.take(i as int) =~= order0);
            assert forall|j: int| 0 <= j < self.order@.len() implies self.connections@.contains_key(
                #[trigger] self.order@[j],
            ) && self.connections@[self.order@[j]]@.id == self.order@[j] && self.order@[j]
                < self.next_id by {
                let id = self.order@[j];
                assert(self.order@.contains(id));
                assert(self.connections@.contains_key(id));
                assert(order0.contains(id));
                let m = choose|m: int| 0 <= m < order0.len() && order0[m] == id;
                assert(conns0[order0[m]]@.id == order0[m]);
                assert(order0[m] < self.next_id);
            }
            assert(infos(out@) =~= entries_of(self.connections@, self.order@));
            assert(self.order@.len() <= MAX_CONNECTIONS) by {
                lemma_filter_len(entries, pred);
            }
        }
        out
    }

    /// The connections in the order they came, when the clock reads `now`. The first snapshot
    /// and every fifth one after it forget those that were closed a while ago.
    pub fn snapshot_at(&mut self, now: u128) -> (r: Vec<Arc<ConnectionInfo>>)
        requires
            old(self).wf(),
        ensures
            final(self).wf(),
            final(self)@ == after_snapshot(old(self)@, now),
            infos(r@) == shown(old(self)@, now),
    {
        broadcast use vstd::std_specs::hash::group_hash_axioms;

        let count: u64 = self.snapshot_count;
        self.snapshot_count = count.wrapping_add(1);
        if count % CLEANUP_PERIOD == 0 {
            return self.clean_up(now);
        }
        let mut out: Vec<Arc<ConnectionInfo>> = Vec::new();
        let mut i: usize = 0;
        while i < self.order.len()
            invariant
                self.wf(),
                i <= self.order@.len(),
                infos(out@) == self@.entries.take(i as int),
            decreases self.order@.len() - i,
        {
            let id: u64 = self.order[i];
            assert(self.connections@.contains_key(id));
            let ghost out0 = out@;
            if let Some(info) = self.connections.get(&id) {
                out.push(info.clone());
                assert(out@ == out0.push(*info));
                assert(infos(out@) =~= infos(out0).push(info@));
                assert(info@ == self@.entries[i as int]);
            }
            assert(infos(out@) =~= self@.entries.take(i + 1));
            i = i + 1;
        }
        assert(self@.entries.take(i as int) =~= self@.entries);
        out
    }

    /// The connections in the order they came.
    pub fn snapshot(&mut self) -> (r: Vec<Arc<ConnectionInfo>>)
        requires
            old(self).wf(),
        ensures
            final(self).wf(),
            exists|now: u128|
                final(self)@ == #[trigger] after_snapshot(old(self)@, now) && infos(r@) == shown(
                    old(self)@,
                    now,
                ),
    {
        let now: u128 = self.clock.nanos();
        self.snapshot_at(now)
    }
}

proof fn lemma_live_step(
    conns: Map<u64, Arc<ConnectionInfo>>,
    conns1: Map<u64, Arc<ConnectionInfo>>,
    live: Seq<u64>,
    live1: Seq<u64>,
    rest: Seq<u64>,
    next: Seq<u64>,
    id: u64,
)
    requires
        forall|k: u64| #[trigger]
            conns.contains_key(k) <==> live.contains(k) || rest.contains(k),
        forall|k: u64| #[trigger] rest.contains(k) <==> k == id || next.contains(k),
        !live.contains(id),
        !next.contains(id),
        (live1 == live.push(id) && conns1 == conns) || (live1 == live && conns1 == conns.remove(
            id,
        )),
    ensures
        forall|k: u64| #[trigger]
            conns1.contains_key(k) <==> live1.contains(k) || next.contains(k),
{
    assert forall|k: u64| #[trigger] conns1.contains_key(k) <==> live1.contains(k)
        || next.contains(k) by {
        assert(conns.contains_key(k) <==> live.contains(k) || rest.contains(k));
        assert(rest.contains(k) <==> k == id || next.contains(k));
        if live1 == live.push(id) && conns1 == conns {
            vstd::seq_lib::lemma_seq_contains_after_push(live, id, k);
        }
    }
}

proof fn lemma_filter_len(s: Seq<InfoView>, pred: spec_fn(InfoView) -> bool)
    ensures
        s.filter(pred).len() <= s.len(),
    decreases s.len(),
{
    reveal(Seq::filter);
    if s.len() > 0 {
        lemma_filter_len(s.drop_last(), pred);
    }
}

// ---------------------------------------------------------------------------
// Laws
// ---------------------------------------------------------------------------

/// Whether a tracker holds at most so many connections, each under an id of its own that was
/// given out before, in the order they came.
pub open spec fn is_sound(t: TrackerView) -> bool {
    &&& t.entries.len() <= MAX_CONNECTIONS
    &&& forall|i: int, j: int|
        0 <= i < j < t.entries.len() ==> (#[trigger] t.entries[i]).id < (
        #[trigger] t.entries[j]).id
    &&& forall|i: int| 0 <= i < t.entries.len() ==> (#[trigger] t.entries[i]).id < t.next_id
}

/// Law: every tracker is sound.
pub proof fn tracker_is_sound(t: ConnectionTracker)
    requires
        t.wf(),
    ensures
        is_sound(t@),
{
    assert forall|i: int| 0 <= i < t@.entries.len() implies (#[trigger] t@.entries[i]).id
        == t.order@[i] by {
        assert(t.connections@.contains_key(t.order@[i]));
    }
}

/// Law: a registration adds its connection at the end and takes away none but the oldest, and
/// that one only when the tracker is full.
pub proof fn registration_evicts_the_oldest(t: TrackerView, e: InfoView)
    requires
        is_sound(t),
    ensures
        registered(t, e).entries.last() == e,
        t.entries.len() < MAX_CONNECTIONS ==> registered(t, e).entries.drop_last() == t.entries,
        t.entries.len() == MAX_CONNECTIONS ==> registered(t, e).entries.drop_last()
            == t.entries.skip(1),
{
    let all = t.entries.push(e);
    assert(all.drop_last() =~= t.entries);
    if t.entries.len() > 0 {
        assert(all.skip(1).drop_last() =~= t.entries.skip(1));
    }
}

/// Law: a change leaves the ids, the order and every other connection as they are.
pub proof fn change_touches_one_connection(
    t: TrackerView,
    id: u64,
    change: spec_fn(InfoView) -> InfoView,
    i: int,
)
    requires
        0 <= i < t.entries.len(),
    ensures
        changed(t, id, change).entries.len() == t.entries.len(),
        t.entries[i].id != id ==> changed(t, id, change).entries[i] == t.entries[i],
        t.entries[i].id == id ==> changed(t, id, change).entries[i] == change(t.entries[i]),
        changed(t, id, change).next_id == t.next_id,
{
}

/// Law: a change of a connection that was never registered, or is forgotten, changes nothing.
pub proof fn unknown_id_changes_nothing(
    t: TrackerView,
    id: u64,
    change: spec_fn(InfoView) -> InfoView,
)
    requires
        forall|i: int| 0 <= i < t.entries.len() ==> (#[trigger] t.entries[i]).id != id,
    ensures
        changed(t, id, change) == t,
{
    assert(changed(t, id, change).entries =~= t.entries);
}

/// Whether both are the same connection, at different times: its id, its source, its start and its
/// counters are for life.
pub open spec fn same_connection(a: InfoView, b: InfoView) -> bool {
    &&& a.id == b.id
    &&& a.source_ip == b.source_ip
    &&& a.start_time == b.start_time
    &&& a.bytes_sent == b.bytes_sent
    &&& a.bytes_received == b.bytes_received
}

/// Law: no change that the tracker makes gives a connection other counters, or another id, source
/// or start.
pub proof fn changes_keep_the_counters(e: InfoView, text: Seq<char>, status: StatusView, now: u128)
    ensures
        same_connection(e, InfoView { exe_name: text, ..e }),
        same_connection(e, InfoView { proxy: text, ..e }),
        same_connection(e, InfoView { outbound_target: text, ..e }),
        same_connection(e, InfoView { proxy_protocol: text, ..e }),
        same_connection(e, InfoView { status: StatusView::Connected, ..e }),
        same_connection(e, ended(e, status, now)),
{
}

/// Law: what a snapshot showed of a connection, `a`, and what one after a change shows of it, `b`,
/// differ by that change alone, and not at all where another connection was changed. Both have the
/// same counters, so that the earlier snapshot goes on counting.
pub proof fn snapshots_share_the_counters(
    t: TrackerView,
    id: u64,
    change: spec_fn(InfoView) -> InfoView,
    now: u128,
    later: u128,
    a: InfoView,
    b: InfoView,
)
    requires
        is_sound(t),
        forall|e: InfoView| same_connection(e, #[trigger] change(e)),
        shown(t, now).contains(a),
        shown(changed(after_snapshot(t, now), id, change), later).contains(b),
        a.id == b.id,
    ensures
        b == if a.id == id {
            change(a)
        } else {
            a
        },
        same_connection(a, b),
{
    let mid = after_snapshot(t, now);
    let end = changed(mid, id, change);
    snapshot_forgets_only_the_closed(t, now);
    snapshot_forgets_only_the_closed(end, later);
    assert(end.entries.contains(b));
    let k = choose|k: int| 0 <= k < end.entries.len() && end.entries[k] == b;
    let e = mid.entries[k];
    assert(same_connection(e, change(e)));
    assert(shown(t, now).contains(e));
    assert(t.entries.contains(e));
    assert(t.entries.contains(a));
    let i = choose|i: int| 0 <= i < t.entries.len() && t.entries[i] == e;
    let j = choose|j: int| 0 <= j < t.entries.len() && t.entries[j] == a;
    assert(i == j);
}

proof fn lemma_filter_members(s: Seq<InfoView>, pred: spec_fn(InfoView) -> bool)
    ensures
        forall|e: InfoView| #[trigger] s.filter(pred).contains(e) <==> s.contains(e) && pred(e),
    decreases s.len(),
{
    reveal(Seq::filter);
    if s.len() > 0 {
        let init = s.drop_last();
        lemma_filter_members(init, pred);
        let last = s.last();
        let f = init.filter(pred);
        assert(s =~= init.push(last));
        assert forall|e: InfoView| #[trigger] s.filter(pred).contains(e) <==> s.contains(e) && pred(
            e,
        ) by {
            vstd::seq_lib::lemma_seq_contains_after_push(init, last, e);
            vstd::seq_lib::lemma_seq_contains_after_push(f, last, e);
            assert(s.filter(pred) =~= if pred(last) {
                f.push(last)
            } else {
                f
            });
            assert(f.contains(e) <==> init.contains(e) && pred(e));
        }
    }
}

/// Law: a snapshot shows every connection that is open or was closed a short while ago; one that
/// cleans up shows no other, and forgets what it does not show.
pub proof fn snapshot_forgets_only_the_closed(t: TrackerView, now: u128)
    ensures
        forall|e: InfoView|
            t.entries.contains(e) && is_kept(e, now) ==> #[trigger] shown(t, now).contains(e),
        forall|e: InfoView| #[trigger] shown(t, now).contains(e) ==> t.entries.contains(e),
        t.snapshots % CLEANUP_PERIOD == 0 ==> forall|e: InfoView| #[trigger]
            shown(t, now).contains(e) ==> is_kept(e, now),
        after_snapshot(t, now).entries == shown(t, now),
{
    lemma_filter_members(t.entries, |e: InfoView| is_kept(e, now));
}

/// A tracker after snapshots at these times.
pub open spec fn snapshots_after(t: TrackerView, times: Seq<u128>) -> TrackerView
    decreases times.len(),
{
    if times.len() == 0 {
        t
    } else {
        after_snapshot(snapshots_after(t, times.drop_last()), times.last())
    }
}

proof fn lemma_snapshots_shrink(t: TrackerView, times: Seq<u128>, e: InfoView)
    requires
        snapshots_after(t, times).entries.contains(e),
    ensures
        t.entries.contains(e),
        forall|i: int|
            0 <= i < times.len() && #[trigger] snapshots_after(t, times.take(i)).snapshots
                % CLEANUP_PERIOD == 0 ==> is_kept(e, times[i]),
    decreases times.len(),
{
    if times.len() > 0 {
        let before = snapshots_after(t, times.drop_last());
        snapshot_forgets_only_the_closed(before, times.last());
        lemma_snapshots_shrink(t, times.drop_last(), e);
        assert forall|i: int|
            0 <= i < times.len() && #[trigger] snapshots_after(t, times.take(i)).snapshots
                % CLEANUP_PERIOD == 0 implies is_kept(e, times[i]) by {
            if i < times.len() - 1 {
                assert(times.drop_last().take(i) =~= times.take(i));
            } else {
                assert(times.take(i) =~= times.drop_last());
            }
        }
    }
}

proof fn lemma_snapshots_count(t: TrackerView, times: Seq<u128>)
    requires
        t.snapshots + times.len() <= u64::MAX,
    ensures
        snapshots_after(t, times).snapshots == t.snapshots + times.len(),
    decreases times.len(),
{
    if times.len() > 0 {
        lemma_snapshots_count(t, times.drop_last());
    }
}

/// Law: of five snapshots in a row one cleans up, so that a connection which was closed long
/// before the first of them is gone after the last.
pub proof fn closed_connections_fade(t: TrackerView, times: Seq<u128>, e: InfoView)
    requires
        times.len() == CLEANUP_PERIOD,
        forall|i: int| 0 <= i < times.len() ==> !is_kept(e, #[trigger] times[i]),
    ensures
        !snapshots_after(t, times).entries.contains(e),
{
    if snapshots_after(t, times).entries.contains(e) {
        lemma_snapshots_shrink(t, times, e);
        let i = (CLEANUP_PERIOD - t.snapshots % CLEANUP_PERIOD) % (CLEANUP_PERIOD as int);
        lemma_snapshots_count(t, times.take(i));
        assert(snapshots_after(t, times.take(i)).snapshots % CLEANUP_PERIOD == 0);
        assert(is_kept(e, times[i]));
    }
}

/// Law: two statuses with the same text are the same.
pub proof fn status_texts_tell_apart(
    a: StatusView,
    b: StatusView,
)
    requires
        status_text(a) == status_text(b),
    ensures
        a == b,
{
    lemma_status_shape(a);
    lemma_status_shape(b);
}

proof fn lemma_status_shape(s: StatusView)
    ensures
        match s {
            StatusView::Connecting => status_text(s).len() == 10 && status_text(s)[0] == 'c',
            StatusView::Connected => status_text(s).len() == 9 && status_text(s)[0] == 'c',
            StatusView::Closed => status_text(s).len() == 6 && status_text(s)[0] == 'c',
            StatusView::Error(message) => status_text(s)[0] == 'e' && status_text(s).skip(7)
                == message,
        },
{
    reveal_strlit("connecting");
    reveal_strlit("connected");
    reveal_strlit("closed");
    reveal_strlit("error: ");
    if let StatusView::Error(message) = s {
        assert(status_text(s).skip(7) =~= message);
    }
}

/// Law: a tracker keeps 5000 connections, each for five seconds after it closed; one of five
/// snapshots cleans up.
pub proof fn tracker_limits()
    ensures
        MAX_CONNECTIONS == 5000,
        CLOSED_RETENTION_NANOS == 5_000_000_000,
        CLEANUP_PERIOD == 5,
{
}

/// Law: a connection is kept as long as it is open, and then for less than five seconds.
pub proof fn closed_connections_are_kept_a_while(e: InfoView, now: u128)
    ensures
        e.closed_at is None ==> is_kept(e, now),
        e.closed_at matches Some(t) ==> (is_kept(e, now) <==> now < t + 5_000_000_000),
{
}

/// Law: a connection that is registered shows what it was registered with, waits for its proxy, and
/// has neither a program nor an end; the next one has the next id.
pub proof fn registered_connections_start_fresh(
    t: TrackerView,
    id: u64,
    source_ip: Seq<char>,
    outbound_target: Seq<char>,
    proxy_protocol: Seq<char>,
    start_time: Seq<char>,
    bytes_sent: Arc<AtomicU64>,
    bytes_received: Arc<AtomicU64>,
)
    requires
        t.next_id < u64::MAX,
    ensures
        ({
            let e = fresh_info(
                id,
                source_ip,
                outbound_target,
                proxy_protocol,
                start_time,
                bytes_sent,
                bytes_received,
            );
            &&& e.id == id && e.source_ip == source_ip && e.outbound_target == outbound_target
            &&& e.proxy_protocol == proxy_protocol && e.start_time == start_time
            &&& e.proxy == "connecting..."@
            &&& e.status is Connecting && e.closed_at is None && e.exe_name == ""@
            &&& e.bytes_sent == bytes_sent && e.bytes_received == bytes_received
            &&& registered(t, e).next_id == t.next_id + 1
            &&& registered(t, e).snapshots == t.snapshots
            &&& registered(t, e).entries.contains(e)
        }),
{
    let e = fresh_info(
        id,
        source_ip,
        outbound_target,
        proxy_protocol,
        start_time,
        bytes_sent,
        bytes_received,
    );
    let all = t.entries.push(e);
    let kept = registered(t, e).entries;
    assert(all.last() == e);
    assert(kept[kept.len() - 1] == e);
}

/// Law: a registration lets go of the oldest connections alone, and of no more than it must: those
/// that stay are the last of what there was, at most 5000 with the new one.
pub proof fn registration_keeps_the_newest(t: TrackerView, e: InfoView, i: int)
    ensures
        ({
            let kept = registered(t, e).entries;
            let all = t.entries.push(e);
            &&& kept.len() == (if all.len() > 5000 {
                5000
            } else {
                all.len()
            })
            &&& 0 <= i < kept.len() ==> kept[kept.len() - 1 - i] == all[all.len() - 1 - i]
        }),
{
}

/// Law: a snapshot shows the connections in the order they came, and one that does not clean up
/// shows all of them; it changes neither the ids nor what is kept otherwise.
pub proof fn snapshots_keep_the_order(t: TrackerView, now: u128)
    ensures
        t.snapshots % 5 != 0 ==> shown(t, now) == t.entries,
        is_sound(t) ==> is_sound(after_snapshot(t, now)),
        after_snapshot(t, now).next_id == t.next_id,
        t.snapshots < u64::MAX ==> after_snapshot(t, now).snapshots == t.snapshots + 1,
        (forall|i: int| 0 <= i < t.entries.len() ==> is_kept(#[trigger] t.entries[i], now))
            ==> shown(t, now) == t.entries,
{
    let pred = |e: InfoView| is_kept(e, now);
    if is_sound(t) {
        lemma_filter_rises(t.entries, pred);
        lemma_filter_len(t.entries, pred);
        snapshot_forgets_only_the_closed(t, now);
        let s = after_snapshot(t, now);
        assert forall|i: int| 0 <= i < s.entries.len() implies (#[trigger] s.entries[i]).id
            < s.next_id by {
            assert(shown(t, now).contains(s.entries[i]));
            let j = choose|j: int| 0 <= j < t.entries.len() && t.entries[j] == s.entries[i];
            assert(t.entries[j].id < t.next_id);
        }
    }
    if forall|i: int| 0 <= i < t.entries.len() ==> is_kept(#[trigger] t.entries[i], now) {
        lemma_filter_all(t.entries, pred);
    }
}

proof fn lemma_filter_all(s: Seq<InfoView>, pred: spec_fn(InfoView) -> bool)
    requires
        forall|i: int| 0 <= i < s.len() ==> pred(#[trigger] s[i]),
    ensures
        s.filter(pred) == s,
    decreases s.len(),
{
    reveal(Seq::filter);
    if s.len() > 0 {
        let init = s.drop_last();
        assert(forall|i: int| 0 <= i < init.len() ==> init[i] == s[i]);
        lemma_filter_all(init, pred);
        assert(pred(s[s.len() - 1]));
        assert(init.push(s.last()) =~= s);
    }
}

proof fn lemma_filter_rises(s: Seq<InfoView>, pred: spec_fn(InfoView) -> bool)
    requires
        forall|i: int, j: int|
            0 <= i < j < s.len() ==> (#[trigger] s[i]).id < (#[trigger] s[j]).id,
    ensures
        forall|i: int, j: int|
            0 <= i < j < s.filter(pred).len() ==> (#[trigger] s.filter(pred)[i]).id < (
            #[trigger] s.filter(pred)[j]).id,
    decreases s.len(),
{
    reveal(Seq::filter);
    if s.len() > 0 {
        let init = s.drop_last();
        let last = s.last();
        assert(forall|i: int| 0 <= i < init.len() ==> init[i] == s[i]);
        lemma_filter_rises(init, pred);
        lemma_filter_members(init, pred);
        let f = init.filter(pred);
        assert forall|i: int, j: int| 0 <= i < j < s.filter(pred).len() implies (
        #[trigger] s.filter(pred)[i]).id < (#[trigger] s.filter(pred)[j]).id by {
            if pred(last) && j == f.len() {
                assert(f.contains(f[i]));
                let k = choose|k: int| 0 <= k < init.len() && init[k] == f[i];
                assert(s[k].id < s[s.len() - 1].id);
            } else {
                assert(f[i].id < f[j].id);
            }
        }
    }
}

/// Law: a connection that ended shows how, and since when, and keeps all else.
pub proof fn ended_connections_show_how(e: InfoView, status: StatusView, now: u128)
    ensures
        ended(e, status, now).status == status,
        ended(e, status, now).closed_at == Some(now),
        ended(e, status, now).exe_name == e.exe_name,
        ended(e, status, now).proxy == e.proxy,
        ended(e, status, now).outbound_target == e.outbound_target,
        ended(e, status, now).proxy_protocol == e.proxy_protocol,
        same_connection(e, ended(e, status, now)),
{
}

/// Law: a status is shown by its word, and an error by its message.
pub proof fn statuses_are_shown_in_words(message: Seq<char>)
    ensures
        status_text(StatusView::Connecting) == "connecting"@,
        status_text(StatusView::Connected) == "connected"@,
        status_text(StatusView::Closed) == "closed"@,
        status_text(StatusView::Error(message)) == "error: "@ + message,
        Protocol::Socks4.name() == "SOCKS4"@,
        Protocol::Socks4a.name() == "SOCKS4a"@,
        Protocol::Socks5.name() == "SOCKS5"@,
        Protocol::Socks5h.name() == "SOCKS5h"@,
        Protocol::Http.name() == "HTTP"@,
        Protocol::Direct.name() == "Direct"@,
{
}

/// Whether `after` is `before` with the connection of an id, and no other, as `now_shown` says.
pub open spec fn differs_in(
    before: TrackerView,
    after: TrackerView,
    id: u64,
    now_shown: spec_fn(InfoView, InfoView) -> bool,
) -> bool {
    &&& after.next_id == before.next_id
    &&& after.snapshots == before.snapshots
    &&& after.entries.len() == before.entries.len()
    &&& forall|i: int|
        0 <= i < before.entries.len() ==> if (#[trigger] before.entries[i]).id == id {
            now_shown(before.entries[i], after.entries[i])
        } else {
            after.entries[i] == before.entries[i]
        }
}

/// Law: each setter sets its part of the connection that it is told of, and leaves every other part
/// and every other connection as they are.
pub proof fn setters_set_their_part(
    t: TrackerView,
    id: u64,
    text: Seq<char>,
    status: StatusView,
    now: u128,
)
    ensures
        differs_in(
            t,
            with_exe_name(t, id, text),
            id,
            |b: InfoView, a: InfoView|
                a.exe_name == text && same_connection(a, b) && a.proxy == b.proxy
                    && a.outbound_target == b.outbound_target && a.proxy_protocol
                    == b.proxy_protocol && a.status == b.status && a.closed_at == b.closed_at,
        ),
        differs_in(
            t,
            with_proxy(t, id, text),
            id,
            |b: InfoView, a: InfoView|
                a.proxy == text && same_connection(a, b) && a.exe_name == b.exe_name
                    && a.outbound_target == b.outbound_target && a.proxy_protocol
                    == b.proxy_protocol && a.status == b.status && a.closed_at == b.closed_at,
        ),
        differs_in(
            t,
            with_target(t, id, text),
            id,
            |b: InfoView, a: InfoView|
                a.outbound_target == text && same_connection(a, b) && a.exe_name == b.exe_name
                    && a.proxy == b.proxy && a.proxy_protocol == b.proxy_protocol && a.status
                    == b.status && a.closed_at == b.closed_at,
        ),
        differs_in(
            t,
            with_protocol(t, id, text),
            id,
            |b: InfoView, a: InfoView|
                a.proxy_protocol == text && same_connection(a, b) && a.exe_name == b.exe_name
                    && a.proxy == b.proxy && a.outbound_target == b.outbound_target && a.status
                    == b.status && a.closed_at == b.closed_at,
        ),
        differs_in(
            t,
            with_connected(t, id),
            id,
            |b: InfoView, a: InfoView|
                a.status is Connected && same_connection(a, b) && a.exe_name == b.exe_name
                    && a.proxy == b.proxy && a.outbound_target == b.outbound_target
                    && a.proxy_protocol == b.proxy_protocol && a.closed_at == b.closed_at,
        ),
        differs_in(
            t,
            with_ended(t, id, status, now),
            id,
            |b: InfoView, a: InfoView|
                a.status == status && a.closed_at == Some(now) && same_connection(a, b)
                    && a.exe_name == b.exe_name && a.proxy == b.proxy && a.outbound_target
                    == b.outbound_target && a.proxy_protocol == b.proxy_protocol,
        ),
{
}

/// Law: of a list of shared connections every one counts, in its place.
pub proof fn every_connection_is_seen(v: Seq<Arc<ConnectionInfo>>, i: int)
    requires
        0 <= i < v.len(),
    ensures
        infos(v).len() == v.len(),
        infos(v)[i] == v[i]@,
{
}

} // verus!
