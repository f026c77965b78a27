//! The program behind a connection.

use crate::text;
use crate::text::{from_chars, to_chars, trim_chars, TrimSet};
use std::collections::HashMap;
use vstd::prelude::*;
use vstd::string::*;

verus! {

/// The trace event that tells of a new connection.
pub const CONNECT_EVENT_ID: u16 = 10;

/// How long to wait before a program is looked for again, in milliseconds.
pub const RETRY_DELAY_MILLIS: u64 = 50;

// ---------------------------------------------------------------------------
// The socket table
// ---------------------------------------------------------------------------

/// An entry of the table of sockets: its ports, and the first process that holds it.
#[derive(Clone, Copy, Debug)]
pub enum SocketEntry {
    Tcp { local_port: u16, remote_port: u16, pid: Option<u32> },
    Udp,
}

/// Whether a socket is the end of the client that connected from `remote_port` to `listen_port`.
pub open spec fn is_client_end(s: SocketEntry, listen_port: u16, remote_port: u16) -> bool {
    match s {
        SocketEntry::Tcp { local_port, remote_port: peer, pid: _ } => peer == listen_port
            && local_port == remote_port,
        SocketEntry::Udp => false,
    }
}

/// The process that holds a socket, unless it is one of the system.
pub open spec fn user_process(s: SocketEntry) -> Option<u32> {
    match s {
        SocketEntry::Tcp { local_port: _, remote_port: _, pid: Some(pid) } => if pid == 0 || pid
            == 4 {
            None
        } else {
            Some(pid)
        },
        _ => None,
    }
}

/// The process of the client: the one that holds the first socket that is the client's end.
pub open spec fn client_process(
    sockets: Seq<SocketEntry>,
    listen_port: u16,
    remote_port: u16,
) -> Option<u32>
    decreases sockets.len(),
{
    if sockets.len() == 0 {
        None
    } else if is_client_end(sockets[0], listen_port, remote_port) {
        user_process(sockets[0])
    } else {
        client_process(sockets.skip(1), listen_port, remote_port)
    }
}

/// Finds the process of the client that connected from `remote_port` to `listen_port`.
pub fn lookup_port_to_pid(
    sockets: &Vec<SocketEntry>,
    listen_port: u16,
    remote_port: u16,
) -> (r: Option<u32>)
    ensures
        r == client_process(sockets@, listen_port, remote_port),
{
    let mut i: usize = 0;
    assert(sockets@.skip(0) =~= sockets@);
    while i < sockets.len()
        invariant
            i <= sockets@.len(),
            client_process(sockets@, listen_port, remote_port) == client_process(
                sockets@.skip(i as int),
                listen_port,
                remote_port,
            ),
        decreases sockets@.len() - i,
    {
        assert(sockets@.skip(i as int).skip(1) =~= sockets@.skip(i + 1));
        if let SocketEntry::Tcp { local_port, remote_port: peer, pid } = sockets[i] {
            if peer == listen_port && local_port == remote_port {
                return match pid {
                    Some(pid) => if pid == 0 || pid == 4 {
                        None
                    } else {
                        Some(pid)
                    },
                    None => None,
                };
            }
        }
        i = i + 1;
    }
    None
}

/// The name of a program in the record that the system keeps of it.
pub open spec fn name_in_record(record: Seq<char>) -> Seq<char> {
    text::trim(record, TrimSet::Whitespace)
}

/// The name of a program from the record that the system keeps of it.
pub fn program_name(record: &str) -> (r: String)
    ensures
        r@ == text::trim(record@, TrimSet::Whitespace),
        r@ == name_in_record(record@),
{
    from_chars(&trim_chars(&to_chars(record), TrimSet::Whitespace))
}

// ---------------------------------------------------------------------------
// The resolver
// ---------------------------------------------------------------------------

/// What is known: processes and programs by the port of the client.
#[verifier::ext_equal]
pub ghost struct ResolverView {
    pub pids: Map<u16, u32>,
    pub exes: Map<u16, Seq<char>>,
    pub listen_port: u16,
}

/// What to do next to find a program.
#[derive(Debug)]
pub enum LookupStep<T> {
    /// This is the program.
    Found(T),
    /// Ask the system for the program of this process.
    ResolvePid(u32),
    /// Look for the client in the table of sockets.
    ScanSockets,
    /// The program cannot be found.
    NotFound,
}

impl View for LookupStep<String> {
    type V = LookupStep<Seq<char>>;

    open spec fn view(&self) -> LookupStep<Seq<char>> {
        match self {
            LookupStep::Found(exe) => LookupStep::Found(exe@),
            LookupStep::ResolvePid(pid) => LookupStep::ResolvePid(*pid),
            LookupStep::ScanSockets => LookupStep::ScanSockets,
            LookupStep::NotFound => LookupStep::NotFound,
        }
    }
}

/// A cache of the programs behind the ports of clients.
#[derive(Debug)]
pub struct ExeResolver {
    port_to_pid: HashMap<u16, u32>,
    port_to_exe: HashMap<u16, String>,
    listen_port: u16,
}

impl View for ExeResolver {
    type V = ResolverView;

    closed spec fn view(&self) -> ResolverView {
        ResolverView {
            pids: self.port_to_pid@,
            exes: self.port_to_exe@.map_values(|exe: String| exe@),
            listen_port: self.listen_port,
        }
    }
}

/// The first step of a search: what is known comes first.
pub open spec fn first_step(r: ResolverView, remote_port: u16) -> LookupStep<Seq<char>> {
    if r.exes.contains_key(remote_port) {
        LookupStep::Found(r.exes[remote_port])
    } else if r.pids.contains_key(remote_port) {
        LookupStep::ResolvePid(r.pids[remote_port])
    } else {
        LookupStep::ScanSockets
    }
}

/// The resolver and the step after a look at the table of sockets.
pub open spec fn after_scan(r: ResolverView, remote_port: u16, pid: Option<u32>) -> (
    ResolverView,
    LookupStep<Seq<char>>,
) {
    match pid {
        Some(pid) => (
            ResolverView { pids: r.pids.insert(remote_port, pid), ..r },
            LookupStep::ResolvePid(pid),
        ),
        None => (r, LookupStep::NotFound),
    }
}

/// The resolver and the step after the system named the program, or could not.
pub open spec fn after_resolution(r: ResolverView, remote_port: u16, exe: Option<Seq<char>>) -> (
    ResolverView,
    LookupStep<Seq<char>>,
) {
    match exe {
        Some(exe) => (
            ResolverView { exes: r.exes.insert(remote_port, exe), ..r },
            LookupStep::Found(exe),
        ),
        None => (r, LookupStep::NotFound),
    }
}

/// The resolver after a trace event: one that tells of a connection to the port that is listened
/// on, from a port that is not known yet, names a process.
pub open spec fn after_event(
    r: ResolverView,
    event_id: u16,
    pid: u32,
    dport: Option<u16>,
    sport: Option<u16>,
) -> ResolverView {
    match sport {
        Some(port) => if event_id == CONNECT_EVENT_ID && dport == Some(r.listen_port) && port != 0
            && !r.pids.contains_key(port) {
            ResolverView { pids: r.pids.insert(port, pid), ..r }
        } else {
            r
        },
        None => r,
    }
}

/// The resolver without what it knows of a port.
pub open spec fn forgotten(r: ResolverView, port: u16) -> ResolverView {
    ResolverView { pids: r.pids.remove(port), exes: r.exes.remove(port), ..r }
}

/// A program name that may be missing.
pub open spec fn opt_name(exe: Option<String>) -> Option<Seq<char>> {
    match exe {
        Some(exe) => Some(exe@),
        None => None,
    }
}

impl ExeResolver {
    /// A resolver that knows nothing yet.
    pub fn new(listen_port: u16) -> (r: ExeResolver)
        ensures
            r@ == (ResolverView { pids: Map::empty(), exes: Map::empty(), listen_port }),
    {
        broadcast use vstd::std_specs::hash::group_hash_axioms;

        let r = ExeResolver {
            port_to_pid: HashMap::new(),
            port_to_exe: HashMap::new(),
            listen_port,
        };
        assert(r@ =~= (ResolverView { pids: Map::empty(), exes: Map::empty(), listen_port }));
        r
    }

    /// The port that is listened on.
    pub fn listen_port(&self) -> (r: u16)
        ensures
            r == self@.listen_port,
    {
        self.listen_port
    }

    /// Starts to look for the program behind a port.
    pub fn lookup(&self, remote_port: u16) -> (r: LookupStep<String>)
        ensures
            r@ == first_step(self@, remote_port),
    {
        broadcast use vstd::std_specs::hash::group_hash_axioms;

        match self.port_to_exe.get(&remote_port) {
            Some(exe) => LookupStep::Found(exe.clone()),
            None => match self.port_to_pid.get(&remote_port) {
                Some(pid) => LookupStep::ResolvePid(*pid),
                None => LookupStep::ScanSockets,
            },
        }
    }

    /// Goes on once the table of sockets was searched.
    pub fn on_scan(&mut self, remote_port: u16, pid: Option<u32>) -> (r: LookupStep<String>)
        ensures
            (final(self)@, r@) == after_scan(old(self)@, remote_port, pid),
    {
        broadcast use vstd::std_specs::hash::group_hash_axioms;

        match pid {
            Some(pid) => {
                self.port_to_pid.insert(remote_port, pid);
                LookupStep::ResolvePid(pid)
            },
            None => LookupStep::NotFound,
        }
    }

    /// Goes on once the system was asked for the program.
    pub fn on_resolved(&mut self, remote_port: u16, exe: Option<String>) -> (r: LookupStep<String>)
        ensures
            (final(self)@, r@) == after_resolution(old(self)@, remote_port, opt_name(exe)),
    {
        broadcast use vstd::std_specs::hash::group_hash_axioms;

        match exe {
            Some(exe) => {
                self.port_to_exe.insert(remote_port, exe.clone());
                assert(self@.exes =~= old(self)@.exes.insert(remote_port, exe@));
                LookupStep::Found(exe)
            },
            None => LookupStep::NotFound,
        }
    }

    /// Takes in a trace event: its kind, its process, and its ports where they can be read.
    pub fn on_event(&mut self, event_id: u16, pid: u32, dport: Option<u16>, sport: Option<u16>)
        ensures
            final(self)@ == after_event(old(self)@, event_id, pid, dport, sport),
    {
        broadcast use vstd::std_specs::hash::group_hash_axioms;

        if event_id != CONNECT_EVENT_ID {
            return;
        }
        let to_us = match dport {
            Some(port) => port == self.listen_port,
            None => false,
        };
        if !to_us {
            return;
        }
        if let Some(port) = sport {
            if port != 0 && !self.port_to_pid.contains_key(&port) {
                self.port_to_pid.insert(port, pid);
            }
        }
    }

    /// Forgets a port that is no longer in use.
    pub fn remove(&mut self, port: u16)
        ensures
            final(self)@ == forgotten(old(self)@, port),
    {
        broadcast use vstd::std_specs::hash::group_hash_axioms;

        self.port_to_pid.remove(&port);
        self.port_to_exe.remove(&port);
        assert(self@.pids =~= old(self)@.pids.remove(port));
        assert(self@.exes =~= old(self)@.exes.remove(port));
    }
}

/// What to do after a search for the program behind a connection.
#[derive(Debug)]
pub enum SearchNext<T> {
    /// Show this name.
    Show(T),
    /// Search once more, after so many milliseconds.
    Retry(u64),
    /// Leave the name empty.
    GiveUp,
}

impl View for SearchNext<String> {
    type V = SearchNext<Seq<char>>;

    open spec fn view(&self) -> SearchNext<Seq<char>> {
        match self {
            SearchNext::Show(exe) => SearchNext::Show(exe@),
            SearchNext::Retry(millis) => SearchNext::Retry(*millis),
            SearchNext::GiveUp => SearchNext::GiveUp,
        }
    }
}

/// The step after a search, which is repeated once: a trace event may come a little late.
pub open spec fn search_reaction(is_retry: bool, outcome: Option<Seq<char>>) -> SearchNext<
    Seq<char>,
> {
    match outcome {
        Some(exe) => SearchNext::Show(exe),
        None => if is_retry {
            SearchNext::GiveUp
        } else {
            SearchNext::Retry(RETRY_DELAY_MILLIS)
        },
    }
}

/// Decides what follows a search for a program.
pub fn after_search(is_retry: bool, outcome: Option<String>) -> (r: SearchNext<String>)
    ensures
        r@ == search_reaction(is_retry, opt_name(outcome)),
{
    match outcome {
        Some(exe) => SearchNext::Show(exe),
        None => if is_retry {
            SearchNext::GiveUp
        } else {
            SearchNext::Retry(RETRY_DELAY_MILLIS)
        },
    }
}

// ---------------------------------------------------------------------------
// Laws
// ---------------------------------------------------------------------------

/// Law: a program that was found once is found again at once, until its port is forgotten; and
/// nothing is known of a forgotten port.
pub proof fn found_programs_are_remembered(r: ResolverView, port: u16, exe: Seq<char>)
    ensures
        first_step(after_resolution(r, port, Some(exe)).0, port) == LookupStep::Found(exe),
        first_step(forgotten(after_resolution(r, port, Some(exe)).0, port), port)
            == LookupStep::<Seq<char>>::ScanSockets,
{
}

/// Law: the table of sockets is not searched twice for the same port.
pub proof fn found_processes_are_remembered(r: ResolverView, port: u16, pid: u32)
    requires
        first_step(r, port) is ScanSockets,
    ensures
        first_step(after_scan(r, port, Some(pid)).0, port) == LookupStep::<Seq<char>>::ResolvePid(
            pid,
        ),
{
}

/// Law: a trace event changes nothing that is known already.
pub proof fn events_only_add(
    r: ResolverView,
    event_id: u16,
    pid: u32,
    dport: Option<u16>,
    sport: Option<u16>,
    port: u16,
)
    ensures
        r.pids.contains_key(port) ==> after_event(r, event_id, pid, dport, sport).pids.contains_key(
            port,
        ) && after_event(r, event_id, pid, dport, sport).pids[port] == r.pids[port],
        after_event(r, event_id, pid, dport, sport).exes == r.exes,
{
}

/// Law: what happens on one port does not change the search on another.
pub proof fn ports_are_independent(r: ResolverView, port: u16, other: u16, pid: u32, exe: Seq<char>)
    requires
        port != other,
    ensures
        first_step(after_scan(r, port, Some(pid)).0, other) == first_step(r, other),
        first_step(after_resolution(r, port, Some(exe)).0, other) == first_step(r, other),
        first_step(forgotten(r, port), other) == first_step(r, other),
{
}

/// Law: a process of the system is never taken for the program behind a connection.
pub proof fn system_processes_are_skipped(
    sockets: Seq<SocketEntry>,
    listen_port: u16,
    remote_port: u16,
)
    ensures
        client_process(sockets, listen_port, remote_port) != Some(0u32),
        client_process(sockets, listen_port, remote_port) != Some(4u32),
    decreases sockets.len(),
{
    if sockets.len() > 0 {
        system_processes_are_skipped(sockets.skip(1), listen_port, remote_port);
    }
}

/// Law: the process behind a client is the one that holds the first TCP socket from the client's
/// port to the port that is listened on, whatever other sockets there are; none where that is of
/// the system or not known, or where there is no such socket.
pub proof fn first_client_socket_decides(
    sockets: Seq<SocketEntry>,
    i: int,
    listen_port: u16,
    remote_port: u16,
    pid: Option<u32>,
)
    requires
        0 <= i <= sockets.len(),
        forall|j: int|
            0 <= j < i ==> !(#[trigger] sockets[j] matches SocketEntry::Tcp {
                local_port,
                remote_port: peer,
                pid: _,
            } && local_port == remote_port && peer == listen_port),
    ensures
        i == sockets.len() ==> client_process(sockets, listen_port, remote_port) is None,
        i < sockets.len() && sockets[i] == (SocketEntry::Tcp {
            local_port: remote_port,
            remote_port: listen_port,
            pid,
        }) ==> client_process(sockets, listen_port, remote_port) == (match pid {
            Some(p) => if p == 0 || p == 4 {
                None::<u32>
            } else {
                Some(p)
            },
            None => None,
        }),
    decreases i,
{
    if i > 0 {
        let rest = sockets.skip(1);
        assert(forall|j: int| 0 <= j < rest.len() ==> rest[j] == sockets[j + 1]);
        assert(!(sockets[0] matches SocketEntry::Tcp { local_port, remote_port: peer, pid: _ }
            && local_port == remote_port && peer == listen_port));
        assert forall|j: int| 0 <= j < i - 1 implies !(
        #[trigger] rest[j] matches SocketEntry::Tcp { local_port, remote_port: peer, pid: _ }
            && local_port == remote_port && peer == listen_port) by {
            assert(rest[j] == sockets[j + 1]);
        }
        first_client_socket_decides(rest, i - 1, listen_port, remote_port, pid);
    }
}

/// Law: a search begins with what is known of the port: the program, or else the process; the table
/// of sockets is searched just where neither is.
pub proof fn search_begins_with_what_is_known(r: ResolverView, port: u16, exe: Seq<char>, pid: u32)
    ensures
        r.exes.contains_pair(port, exe) ==> first_step(r, port) == LookupStep::Found(exe),
        !r.exes.contains_key(port) && r.pids.contains_pair(port, pid) ==> first_step(r, port)
            == LookupStep::<Seq<char>>::ResolvePid(pid),
        !r.exes.contains_key(port) && !r.pids.contains_key(port) <==> first_step(
            r,
            port,
        ) is ScanSockets,
        !(first_step(r, port) is NotFound),
{
}

/// Law: a process that is found is asked for its program, and a program that is found is the
/// answer; where either is not found, there is no answer and nothing is remembered.
pub proof fn search_goes_on_to_the_program(r: ResolverView, port: u16, pid: u32, exe: Seq<char>)
    ensures
        after_scan(r, port, Some(pid)).1 == LookupStep::<Seq<char>>::ResolvePid(pid),
        after_scan(r, port, Some(pid)).0.exes == r.exes,
        after_scan(r, port, None) == (r, LookupStep::<Seq<char>>::NotFound),
        after_resolution(r, port, Some(exe)).1 == LookupStep::Found(exe),
        after_resolution(r, port, Some(exe)).0.pids == r.pids,
        after_resolution(r, port, None) == (r, LookupStep::<Seq<char>>::NotFound),
{
}

/// Law: a trace event of a connection to the port that is listened on makes its process known; any
/// other event changes nothing.
pub proof fn connections_make_processes_known(
    r: ResolverView,
    event_id: u16,
    pid: u32,
    dport: Option<u16>,
    sport: Option<u16>,
    port: u16,
)
    ensures
        port != 0 && !r.pids.contains_key(port) ==> after_event(
            r,
            10,
            pid,
            Some(r.listen_port),
            Some(port),
        ) == (ResolverView { pids: r.pids.insert(port, pid), ..r }),
        event_id != 10 || dport != Some(r.listen_port) || sport is None || sport == Some(0u16)
            ==> after_event(r, event_id, pid, dport, sport) == r,
{
}

/// Law: a program that is found is shown; one that is not is looked for once more after 50
/// milliseconds, and then no more.
pub proof fn search_is_repeated_once(exe: Seq<char>, is_retry: bool)
    ensures
        search_reaction(is_retry, Some(exe)) == SearchNext::Show(exe),
        search_reaction(false, None) == SearchNext::<Seq<char>>::Retry(50),
        search_reaction(true, None) == SearchNext::<Seq<char>>::GiveUp,
{
}

/// Law: the name of a program is what stands in its record, without the white space around it.
pub proof fn records_hold_the_name(before: Seq<char>, name: Seq<char>, after: Seq<char>)
    requires
        name.len() > 0,
        !text::is_space(name[0]),
        !text::is_space(name.last()),
        forall|i: int| 0 <= i < before.len() ==> text::is_space(#[trigger] before[i]),
        forall|i: int| 0 <= i < after.len() ==> text::is_space(#[trigger] after[i]),
    ensures
        name_in_record(before + name + after) == name,
{
    text::surroundings_are_trimmed(before, name, after, TrimSet::Whitespace);
}

/// Law: nothing is known of a port that is forgotten, and what is known of others stays.
pub proof fn forgetting_concerns_one_port(r: ResolverView, port: u16, other: u16)
    ensures
        !forgotten(r, port).pids.contains_key(port),
        !forgotten(r, port).exes.contains_key(port),
        port != other ==> (forgotten(r, port).pids.contains_key(other) <==> r.pids.contains_key(
            other,
        )) && (forgotten(r, port).exes.contains_key(other) <==> r.exes.contains_key(other)),
        forgotten(r, port).listen_port == r.listen_port,
{
}

} // verus!
