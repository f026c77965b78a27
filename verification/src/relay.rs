//! Moving bytes between a client and its destination.

use crate::stats;
use crate::stats::{Flow, TrafficStats};
use crate::text;
use crate::text::push_decimal;
use vstd::prelude::*;
use vstd::string::*;

verus! {

/// How long a connection may be idle, in seconds.
pub const IDLE_TIMEOUT_SECS: u64 = 300;

/// How long a write may take, in seconds.
pub const WRITE_TIMEOUT_SECS: u64 = 30;

/// How long the other side may go on once one side is done, in seconds.
pub const LINGER_TIMEOUT_SECS: u64 = 15;

/// The number of bytes that are read at a time.
pub const RELAY_BUF_SIZE: usize = 8192;

// ---------------------------------------------------------------------------
// One direction
// ---------------------------------------------------------------------------

/// Why bytes could not be moved.
#[derive(Debug)]
pub enum PumpError<T> {
    /// Reading or writing failed.
    Io(T),
    /// What the client sent ahead could not be written in time.
    LeftoverTimeout,
    /// The receiver did not take bytes in time.
    WriteTimeout(Flow),
    /// The sender sent nothing for too long.
    IdleTimeout(Flow),
}

impl View for PumpError<String> {
    type V = PumpError<Seq<char>>;

    open spec fn view(&self) -> PumpError<Seq<char>> {
        match self {
            PumpError::Io(message) => PumpError::Io(message@),
            PumpError::LeftoverTimeout => PumpError::LeftoverTimeout,
            PumpError::WriteTimeout(flow) => PumpError::WriteTimeout(*flow),
            PumpError::IdleTimeout(flow) => PumpError::IdleTimeout(*flow),
        }
    }
}

/// The message of an error.
pub open spec fn pump_error_text(e: PumpError<Seq<char>>) -> Seq<char> {
    match e {
        PumpError::Io(message) => message,
        PumpError::LeftoverTimeout => "Target leftover write timeout ("@ + text::decimal(
            WRITE_TIMEOUT_SECS as nat,
        ) + "s)"@,
        PumpError::WriteTimeout(Flow::Sent) => "Target write timeout ("@ + text::decimal(
            WRITE_TIMEOUT_SECS as nat,
        ) + "s)"@,
        PumpError::WriteTimeout(Flow::Received) => "Client write timeout ("@ + text::decimal(
            WRITE_TIMEOUT_SECS as nat,
        ) + "s)"@,
        PumpError::IdleTimeout(Flow::Sent) => "Client connection idle timeout"@,
        PumpError::IdleTimeout(Flow::Received) => "Target connection idle timeout"@,
    }
}

fn write_timeout_text(start: &str) -> (r: String)
    ensures
        r@ == start@ + text::decimal(WRITE_TIMEOUT_SECS as nat) + "s)"@,
{
    let mut out = start.to_string();
    push_decimal(&mut out, WRITE_TIMEOUT_SECS);
    out.append("s)");
    out
}

impl PumpError<String> {
    /// The message of the error.
    pub fn message(&self) -> (r: String)
        ensures
            r@ == pump_error_text(self@),
    {
        match self {
            PumpError::Io(message) => message.clone(),
            PumpError::LeftoverTimeout => write_timeout_text("Target leftover write timeout ("),
            PumpError::WriteTimeout(flow) => match flow {
                Flow::Sent => write_timeout_text("Target write timeout ("),
                Flow::Received => write_timeout_text("Client write timeout ("),
            },
            PumpError::IdleTimeout(flow) => match flow {
                Flow::Sent => "Client connection idle timeout".to_string(),
                Flow::Received => "Target connection idle timeout".to_string(),
            },
        }
    }
}

/// What happened on one direction.
#[derive(Debug)]
pub enum PumpEvent<T> {
    /// So many bytes were read; none at the end of the stream.
    Read(usize),
    /// What was to be written was written.
    Written,
    /// Reading or writing failed.
    Failed(T),
    /// Reading or writing took too long.
    TimedOut,
}

impl View for PumpEvent<String> {
    type V = PumpEvent<Seq<char>>;

    open spec fn view(&self) -> PumpEvent<Seq<char>> {
        match self {
            PumpEvent::Read(n) => PumpEvent::Read(*n),
            PumpEvent::Written => PumpEvent::Written,
            PumpEvent::Failed(message) => PumpEvent::Failed(message@),
            PumpEvent::TimedOut => PumpEvent::TimedOut,
        }
    }
}

/// What to do next on one direction.
#[derive(Debug)]
pub enum PumpAction<E> {
    /// Write what the client sent ahead.
    WriteLeftover,
    /// Read.
    Read,
    /// Write the first so many bytes of the buffer.
    Write(usize),
    /// Shut the receiver down: the direction is done.
    Finish,
    /// Give up.
    Fail(E),
}

impl View for PumpAction<PumpError<String>> {
    type V = PumpAction<PumpError<Seq<char>>>;

    open spec fn view(&self) -> PumpAction<PumpError<Seq<char>>> {
        match self {
            PumpAction::WriteLeftover => PumpAction::WriteLeftover,
            PumpAction::Read => PumpAction::Read,
            PumpAction::Write(n) => PumpAction::Write(*n),
            PumpAction::Finish => PumpAction::Finish,
            PumpAction::Fail(e) => PumpAction::Fail(e@),
        }
    }
}

/// What one direction waits for.
#[derive(Clone, Copy, Debug, PartialEq, Eq, Structural)]
pub enum PumpPhase {
    /// That so many bytes which the client sent ahead are written.
    Leftover(usize),
    /// Bytes.
    Reading,
    /// That so many bytes are written.
    Writing(usize),
    /// Nothing.
    Finished,
}

/// The first phase and action of a direction, with so many bytes sent ahead.
pub open spec fn pump_start(leftover: usize) -> (PumpPhase, PumpAction<PumpError<Seq<char>>>) {
    if leftover > 0 {
        (PumpPhase::Leftover(leftover), PumpAction::WriteLeftover)
    } else {
        (PumpPhase::Reading, PumpAction::Read)
    }
}

/// The reaction of a direction to an event: the next phase, the next action, and how many bytes
/// are counted.
pub open spec fn pump_reaction(flow: Flow, phase: PumpPhase, event: PumpEvent<Seq<char>>) -> (
    PumpPhase,
    PumpAction<PumpError<Seq<char>>>,
    usize,
) {
    match (phase, event) {
        (PumpPhase::Finished, _) => (PumpPhase::Finished, PumpAction::Finish, 0),
        (_, PumpEvent::Failed(message)) => (
            PumpPhase::Finished,
            PumpAction::Fail(PumpError::Io(message)),
            0,
        ),
        (PumpPhase::Leftover(n), PumpEvent::Written) => (PumpPhase::Reading, PumpAction::Read, n),
        (PumpPhase::Leftover(_), PumpEvent::TimedOut) => (
            PumpPhase::Finished,
            PumpAction::Fail(PumpError::LeftoverTimeout),
            0,
        ),
        (PumpPhase::Leftover(n), PumpEvent::Read(_)) => (
            PumpPhase::Leftover(n),
            PumpAction::WriteLeftover,
            0,
        ),
        (PumpPhase::Reading, PumpEvent::Read(n)) => if n == 0 {
            (PumpPhase::Finished, PumpAction::Finish, 0)
        } else {
            (PumpPhase::Writing(n), PumpAction::Write(n), 0)
        },
        (PumpPhase::Reading, PumpEvent::TimedOut) => (
            PumpPhase::Finished,
            PumpAction::Fail(PumpError::IdleTimeout(flow)),
            0,
        ),
        (PumpPhase::Reading, PumpEvent::Written) => (PumpPhase::Reading, PumpAction::Read, 0),
        (PumpPhase::Writing(n), PumpEvent::Written) => (PumpPhase::Reading, PumpAction::Read, n),
        (PumpPhase::Writing(_), PumpEvent::TimedOut) => (
            PumpPhase::Finished,
            PumpAction::Fail(PumpError::WriteTimeout(flow)),
            0,
        ),
        (PumpPhase::Writing(n), PumpEvent::Read(_)) => (
            PumpPhase::Writing(n),
            PumpAction::Write(n),
            0,
        ),
    }
}

/// The counters of all traffic after an event of a direction.
pub open spec fn stats_after(
    s: stats::StatsView,
    is_direct: bool,
    flow: Flow,
    phase: PumpPhase,
    event: PumpEvent<Seq<char>>,
) -> stats::StatsView {
    let n = pump_reaction(flow, phase, event).2;
    if n > 0 {
        stats::accounted(s, is_direct, flow, n as u64)
    } else {
        s
    }
}

/// One direction of a relay.
#[derive(Debug)]
pub struct Pump {
    pub flow: Flow,
    pub is_direct: bool,
    pub phase: PumpPhase,
}

impl Pump {
    /// Starts a direction with so many bytes sent ahead.
    pub fn start(flow: Flow, is_direct: bool, leftover: usize) -> (r: (
        Pump,
        PumpAction<PumpError<String>>,
    ))
        ensures
            r.0.flow == flow,
            r.0.is_direct == is_direct,
            (r.0.phase, r.1@) == pump_start(leftover),
    {
        if leftover > 0 {
            (
                Pump { flow, is_direct, phase: PumpPhase::Leftover(leftover) },
                PumpAction::WriteLeftover,
            )
        } else {
            (Pump { flow, is_direct, phase: PumpPhase::Reading }, PumpAction::Read)
        }
    }

    /// Takes in what happened, and counts the bytes that were moved.
    pub fn step(&mut self, event: PumpEvent<String>, stats: &mut TrafficStats) -> (r: (
        PumpAction<PumpError<String>>,
        u64,
    ))
        ensures
            final(self).flow == old(self).flow,
            final(self).is_direct == old(self).is_direct,
            ({
                let (phase, action, n) = pump_reaction(old(self).flow, old(self).phase, event@);
                &&& final(self).phase == phase
                &&& r.0@ == action
                &&& r.1 == n
                &&& final(stats)@ == (if n > 0 {
                    stats::accounted(old(stats)@, old(self).is_direct, old(self).flow, n as u64)
                } else {
                    old(stats)@
                })
            }),
            final(stats)@ == stats_after(
                old(stats)@,
                old(self).is_direct,
                old(self).flow,
                old(self).phase,
                event@,
            ),
    {
        let (phase, action, n): (PumpPhase, PumpAction<PumpError<String>>, usize) = match (
            self.phase,
            event,
        ) {
            (PumpPhase::Finished, _) => (PumpPhase::Finished, PumpAction::Finish, 0),
            (_, PumpEvent::Failed(message)) => (
                PumpPhase::Finished,
                PumpAction::Fail(PumpError::Io(message)),
                0,
            ),
            (PumpPhase::Leftover(n), PumpEvent::Written) => (
                PumpPhase::Reading,
                PumpAction::Read,
                n,
            ),
            (PumpPhase::Leftover(_), PumpEvent::TimedOut) => (
                PumpPhase::Finished,
                PumpAction::Fail(PumpError::LeftoverTimeout),
                0,
            ),
            (PumpPhase::Leftover(n), PumpEvent::Read(_)) => (
                PumpPhase::Leftover(n),
                PumpAction::WriteLeftover,
                0,
            ),
            (PumpPhase::Reading, PumpEvent::Read(n)) => if n == 0 {
                (PumpPhase::Finished, PumpAction::Finish, 0)
            } else {
                (PumpPhase::Writing(n), PumpAction::Write(n), 0)
            },
            (PumpPhase::Reading, PumpEvent::TimedOut) => (
                PumpPhase::Finished,
                PumpAction::Fail(PumpError::IdleTimeout(self.flow)),
                0,
            ),
            (PumpPhase::Reading, PumpEvent::Written) => (PumpPhase::Reading, PumpAction::Read, 0),
            (PumpPhase::Writing(n), PumpEvent::Written) => (
                PumpPhase::Reading,
                PumpAction::Read,
                n,
            ),
            (PumpPhase::Writing(_), PumpEvent::TimedOut) => (
                PumpPhase::Finished,
                PumpAction::Fail(PumpError::WriteTimeout(self.flow)),
                0,
            ),
            (PumpPhase::Writing(n), PumpEvent::Read(_)) => (
                PumpPhase::Writing(n),
                PumpAction::Write(n),
                0,
            ),
        };
        self.phase = phase;
        if n > 0 {
            stats.account(self.is_direct, self.flow, n as u64);
        }
        (action, n as u64)
    }
}

// ---------------------------------------------------------------------------
// Both directions
// ---------------------------------------------------------------------------

/// What happened to a relay.
#[derive(Debug)]
pub enum RelayEvent<T> {
    /// The direction from the client ended, with an error or without.
    ClientDone(Result<(), T>),
    /// The direction to the client ended, with an error or without.
    TargetDone(Result<(), T>),
    /// The time for the other side to finish is over.
    LingerOver,
}

/// The view of an outcome.
pub open spec fn done_view(r: Result<(), String>) -> Result<(), Seq<char>> {
    match r {
        Ok(_) => Ok(()),
        Err(message) => Err(message@),
    }
}

impl View for RelayEvent<String> {
    type V = RelayEvent<Seq<char>>;

    open spec fn view(&self) -> RelayEvent<Seq<char>> {
        match self {
            RelayEvent::ClientDone(r) => RelayEvent::ClientDone(done_view(*r)),
            RelayEvent::TargetDone(r) => RelayEvent::TargetDone(done_view(*r)),
            RelayEvent::LingerOver => RelayEvent::LingerOver,
        }
    }
}

/// What to do next about a relay.
#[derive(Debug)]
pub enum RelayAction<T> {
    /// Start the time for the other side to finish, and wait.
    Linger,
    /// The connection is closed.
    Closed,
    /// The connection failed.
    Failed(T),
}

impl View for RelayAction<String> {
    type V = RelayAction<Seq<char>>;

    open spec fn view(&self) -> RelayAction<Seq<char>> {
        match self {
            RelayAction::Linger => RelayAction::Linger,
            RelayAction::Closed => RelayAction::Closed,
            RelayAction::Failed(message) => RelayAction::Failed(message@),
        }
    }
}

/// Which directions of a relay are done.
#[derive(Clone, Copy, Debug, PartialEq, Eq, Structural)]
pub struct Relay {
    pub client_done: bool,
    pub target_done: bool,
}

/// The reaction of a relay to an event.
pub open spec fn relay_reaction(s: Relay, event: RelayEvent<Seq<char>>) -> (
    Relay,
    RelayAction<Seq<char>>,
) {
    match event {
        RelayEvent::ClientDone(Err(message)) => (
            Relay { client_done: true, ..s },
            RelayAction::Failed(message),
        ),
        RelayEvent::TargetDone(Err(message)) => (
            Relay { target_done: true, ..s },
            RelayAction::Failed(message),
        ),
        RelayEvent::ClientDone(Ok(_)) => (
            Relay { client_done: true, ..s },
            if s.target_done {
                RelayAction::Closed
            } else {
                RelayAction::Linger
            },
        ),
        RelayEvent::TargetDone(Ok(_)) => (
            Relay { target_done: true, ..s },
            if s.client_done {
                RelayAction::Closed
            } else {
                RelayAction::Linger
            },
        ),
        RelayEvent::LingerOver => (s, RelayAction::Closed),
    }
}

impl Relay {
    /// A relay on which no direction is done.
    pub fn new() -> (r: Relay)
        ensures
            r == (Relay { client_done: false, target_done: false }),
    {
        Relay { client_done: false, target_done: false }
    }

    /// Takes in what happened.
    pub fn step(&mut self, event: RelayEvent<String>) -> (r: RelayAction<String>)
        ensures
            (*final(self), r@) == relay_reaction(*old(self), event@),
    {
        match event {
            RelayEvent::ClientDone(outcome) => {
                self.client_done = true;
                match outcome {
                    Err(message) => RelayAction::Failed(message),
                    Ok(_) => if self.target_done {
                        RelayAction::Closed
                    } else {
                        RelayAction::Linger
                    },
                }
            },
            RelayEvent::TargetDone(outcome) => {
                self.target_done = true;
                match outcome {
                    Err(message) => RelayAction::Failed(message),
                    Ok(_) => if self.client_done {
                        RelayAction::Closed
                    } else {
                        RelayAction::Linger
                    },
                }
            },
            RelayEvent::LingerOver => RelayAction::Closed,
        }
    }
}

// ---------------------------------------------------------------------------
// Laws
// ---------------------------------------------------------------------------

/// The phase of a direction after some events.
pub open spec fn pump_phase(flow: Flow, leftover: usize, events: Seq<PumpEvent<Seq<char>>>) -> PumpPhase
    decreases events.len(),
{
    if events.len() == 0 {
        pump_start(leftover).0
    } else {
        pump_reaction(flow, pump_phase(flow, leftover, events.drop_last()), events.last()).0
    }
}

/// The bytes that a direction counted in the course of some events.
pub open spec fn pump_counted(flow: Flow, leftover: usize, events: Seq<PumpEvent<Seq<char>>>) -> int
    decreases events.len(),
{
    if events.len() == 0 {
        0
    } else {
        pump_counted(flow, leftover, events.drop_last()) + pump_reaction(
            flow,
            pump_phase(flow, leftover, events.drop_last()),
            events.last(),
        ).2
    }
}

/// The bytes that were handed to a direction in the course of some events: those sent ahead, and
/// those read while it waited for bytes.
pub open spec fn pump_taken(flow: Flow, leftover: usize, events: Seq<PumpEvent<Seq<char>>>) -> int
    decreases events.len(),
{
    if events.len() == 0 {
        leftover as int
    } else {
        pump_taken(flow, leftover, events.drop_last()) + (match (
            pump_phase(flow, leftover, events.drop_last()),
            events.last(),
        ) {
            (PumpPhase::Reading, PumpEvent::Read(n)) => n as int,
            _ => 0,
        })
    }
}

/// The bytes that a direction holds and has not written yet.
pub open spec fn pump_held(phase: PumpPhase) -> int {
    match phase {
        PumpPhase::Leftover(n) => n as int,
        PumpPhase::Writing(n) => n as int,
        _ => 0,
    }
}

/// Law: as long as a direction has not given up, the bytes that it was handed are those that it
/// counted and those that it holds: none is counted twice and none is lost.
pub proof fn every_byte_is_counted_once(
    flow: Flow,
    leftover: usize,
    events: Seq<PumpEvent<Seq<char>>>,
)
    ensures
        pump_counted(flow, leftover, events) + pump_held(pump_phase(flow, leftover, events))
            <= pump_taken(flow, leftover, events),
        pump_phase(flow, leftover, events) != PumpPhase::Finished ==> pump_counted(
            flow,
            leftover,
            events,
        ) + pump_held(pump_phase(flow, leftover, events)) == pump_taken(flow, leftover, events),
    decreases events.len(),
{
    if events.len() > 0 {
        every_byte_is_counted_once(flow, leftover, events.drop_last());
    }
}

/// Law: a direction whose sender ended its stream has counted every byte that it was handed.
pub proof fn finished_direction_counted_all(
    flow: Flow,
    leftover: usize,
    events: Seq<PumpEvent<Seq<char>>>,
)
    requires
        pump_phase(flow, leftover, events) == PumpPhase::Reading,
    ensures
        pump_reaction(flow, PumpPhase::Reading, PumpEvent::Read(0)).1 is Finish,
        pump_counted(flow, leftover, events.push(PumpEvent::Read(0))) == pump_taken(
            flow,
            leftover,
            events.push(PumpEvent::Read(0)),
        ),
{
    let all = events.push(PumpEvent::Read(0));
    assert(all.drop_last() =~= events);
    every_byte_is_counted_once(flow, leftover, events);
}

/// Law: a relay waits for a direction only while just one is done, and no longer than the time for
/// that; it ends once both are done, or one fails.
pub proof fn relay_does_not_hang(s: Relay, event: RelayEvent<Seq<char>>)
    ensures
        relay_reaction(s, event).1 is Linger ==> relay_reaction(s, event).0.client_done
            != relay_reaction(s, event).0.target_done,
        event is LingerOver ==> relay_reaction(s, event).1 is Closed,
        relay_reaction(s, event).0.client_done && relay_reaction(s, event).0.target_done ==> !(
        relay_reaction(s, event).1 is Linger),
{
}

/// Law: two directions that both end well close the connection, whichever is first.
pub proof fn both_directions_done_closes(client_first: bool)
    ensures
        ({
            let start = Relay { client_done: false, target_done: false };
            let client = RelayEvent::<Seq<char>>::ClientDone(Ok(()));
            let target = RelayEvent::<Seq<char>>::TargetDone(Ok(()));
            let first = if client_first {
                client
            } else {
                target
            };
            let second = if client_first {
                target
            } else {
                client
            };
            let (s, a) = relay_reaction(start, first);
            a is Linger && relay_reaction(s, second).1 is Closed
        }),
{
}

/// What a direction was last asked to do, in the course of some events.
pub open spec fn pump_asked(
    flow: Flow,
    leftover: usize,
    events: Seq<PumpEvent<Seq<char>>>,
) -> PumpAction<PumpError<Seq<char>>>
    decreases events.len(),
{
    if events.len() == 0 {
        pump_start(leftover).1
    } else {
        pump_reaction(flow, pump_phase(flow, leftover, events.drop_last()), events.last()).1
    }
}

/// The bytes that reached the receiver: those of every write that was asked for and was done.
pub open spec fn pump_delivered(
    flow: Flow,
    leftover: usize,
    events: Seq<PumpEvent<Seq<char>>>,
) -> int
    decreases events.len(),
{
    if events.len() == 0 {
        0
    } else {
        let before = events.drop_last();
        pump_delivered(flow, leftover, before) + (match (
            pump_asked(flow, leftover, before),
            events.last(),
        ) {
            (PumpAction::WriteLeftover, PumpEvent::Written) => leftover as int,
            (PumpAction::Write(n), PumpEvent::Written) => n as int,
            _ => 0,
        })
    }
}

/// The bytes that were read when a read was asked for.
pub open spec fn pump_received(
    flow: Flow,
    leftover: usize,
    events: Seq<PumpEvent<Seq<char>>>,
) -> int
    decreases events.len(),
{
    if events.len() == 0 {
        0
    } else {
        let before = events.drop_last();
        pump_received(flow, leftover, before) + (match (
            pump_asked(flow, leftover, before),
            events.last(),
        ) {
            (PumpAction::Read, PumpEvent::Read(n)) => n as int,
            _ => 0,
        })
    }
}

proof fn lemma_asked_by_phase(flow: Flow, leftover: usize, events: Seq<PumpEvent<Seq<char>>>)
    ensures
        match pump_phase(flow, leftover, events) {
            PumpPhase::Leftover(n) => n == leftover && pump_asked(flow, leftover, events)
                == PumpAction::<PumpError<Seq<char>>>::WriteLeftover,
            PumpPhase::Reading => pump_asked(flow, leftover, events) == PumpAction::<
                PumpError<Seq<char>>,
            >::Read,
            PumpPhase::Writing(n) => pump_asked(flow, leftover, events) == PumpAction::<
                PumpError<Seq<char>>,
            >::Write(n),
            PumpPhase::Finished => pump_asked(flow, leftover, events) is Finish || pump_asked(
                flow,
                leftover,
                events,
            ) is Fail,
        },
    decreases events.len(),
{
    if events.len() > 0 {
        lemma_asked_by_phase(flow, leftover, events.drop_last());
    }
}

/// Law: what is counted is what reached the receiver, at every moment of every run: no more, as
/// would be if a part of what was read were not written, and no less.
pub proof fn counted_bytes_were_delivered(
    flow: Flow,
    leftover: usize,
    events: Seq<PumpEvent<Seq<char>>>,
)
    ensures
        pump_counted(flow, leftover, events) == pump_delivered(flow, leftover, events),
    decreases events.len(),
{
    if events.len() > 0 {
        counted_bytes_were_delivered(flow, leftover, events.drop_last());
        lemma_asked_by_phase(flow, leftover, events.drop_last());
    }
}

/// Law: whenever a read is asked for, everything that came before has been delivered: what was
/// sent ahead and all that was read.
pub proof fn reads_come_after_delivery(
    flow: Flow,
    leftover: usize,
    events: Seq<PumpEvent<Seq<char>>>,
)
    ensures
        pump_asked(flow, leftover, events) is Read ==> pump_delivered(flow, leftover, events)
            == leftover + pump_received(flow, leftover, events),
        pump_asked(flow, leftover, events) matches PumpAction::Write(n) ==> pump_delivered(
            flow,
            leftover,
            events,
        ) + n == leftover + pump_received(flow, leftover, events),
        pump_asked(flow, leftover, events) is WriteLeftover ==> pump_delivered(
            flow,
            leftover,
            events,
        ) == 0 && pump_received(flow, leftover, events) == 0,
    decreases events.len(),
{
    if events.len() > 0 {
        reads_come_after_delivery(flow, leftover, events.drop_last());
        lemma_asked_by_phase(flow, leftover, events.drop_last());
    }
    lemma_asked_by_phase(flow, leftover, events);
}

/// Law: a direction that shuts its receiver down without an error has delivered everything that it
/// was handed.
pub proof fn finished_direction_delivered_all(
    flow: Flow,
    leftover: usize,
    events: Seq<PumpEvent<Seq<char>>>,
)
    requires
        pump_asked(flow, leftover, events) is Read,
    ensures
        pump_asked(flow, leftover, events.push(PumpEvent::Read(0))) is Finish,
        pump_delivered(flow, leftover, events.push(PumpEvent::Read(0))) == leftover
            + pump_received(flow, leftover, events.push(PumpEvent::Read(0))),
{
    let all = events.push(PumpEvent::Read(0));
    assert(all.drop_last() =~= events);
    reads_come_after_delivery(flow, leftover, events);
    lemma_asked_by_phase(flow, leftover, events);
}

/// Law: bytes that a direction reads are written as they are: so many bytes read, so many bytes to
/// write, and none counted before that is done; then they are counted, all of them, and the
/// direction reads on.
pub proof fn read_bytes_are_written(flow: Flow, n: usize)
    requires
        n > 0,
    ensures
        ({
            let (phase, action, counted) = pump_reaction(
                flow,
                PumpPhase::Reading,
                PumpEvent::Read(n),
            );
            &&& action == PumpAction::<PumpError<Seq<char>>>::Write(n)
            &&& counted == 0
            &&& pump_reaction(flow, phase, PumpEvent::Written) == (
                PumpPhase::Reading,
                PumpAction::<PumpError<Seq<char>>>::Read,
                n,
            )
        }),
{
}

/// Law: what the client sent ahead is written before anything is read, and counted once; without
/// any, a direction begins by reading.
pub proof fn leftover_goes_first(flow: Flow, leftover: usize)
    ensures
        leftover == 0 ==> pump_start(leftover).1 is Read,
        leftover > 0 ==> pump_start(leftover).1 is WriteLeftover && pump_reaction(
            flow,
            pump_start(leftover).0,
            PumpEvent::Written,
        ) == (PumpPhase::Reading, PumpAction::<PumpError<Seq<char>>>::Read, leftover),
{
}

/// Law: a direction that is not done gives up on the first failure, and on the first read or write
/// that takes too long, with the error of that, and counts nothing of what was not written.
pub proof fn failures_end_a_direction(
    flow: Flow,
    leftover: usize,
    events: Seq<PumpEvent<Seq<char>>>,
    message: Seq<char>,
)
    ensures
        ({
            let phase = pump_phase(flow, leftover, events);
            let asked = pump_asked(flow, leftover, events);
            let failed = pump_reaction(flow, phase, PumpEvent::Failed(message));
            let late = pump_reaction(flow, phase, PumpEvent::TimedOut);
            !(asked is Finish) && !(asked is Fail) ==> {
                &&& failed.0 is Finished && failed.2 == 0
                &&& failed.1 == PumpAction::Fail(PumpError::Io(message))
                &&& late.0 is Finished && late.2 == 0
                &&& asked is WriteLeftover ==> late.1 == PumpAction::Fail(
                    PumpError::<Seq<char>>::LeftoverTimeout,
                )
                &&& asked is Read ==> late.1 == PumpAction::Fail(
                    PumpError::<Seq<char>>::IdleTimeout(flow),
                )
                &&& asked is Write ==> late.1 == PumpAction::Fail(
                    PumpError::<Seq<char>>::WriteTimeout(flow),
                )
            }
        }),
{
    lemma_asked_by_phase(flow, leftover, events);
}

/// Law: a direction that is done stays so, and counts nothing more, whatever comes.
pub proof fn ended_direction_counts_nothing(flow: Flow, event: PumpEvent<Seq<char>>)
    ensures
        pump_reaction(flow, PumpPhase::Finished, event).0 is Finished,
        pump_reaction(flow, PumpPhase::Finished, event).2 == 0,
        !(pump_reaction(flow, PumpPhase::Finished, event).1 is Write),
        !(pump_reaction(flow, PumpPhase::Finished, event).1 is Read),
{
}

/// Law: a relay fails with the message of the direction that failed, whatever the other one did.
pub proof fn relay_fails_with_its_direction(s: Relay, message: Seq<char>)
    ensures
        relay_reaction(s, RelayEvent::ClientDone(Err(message))).1 == RelayAction::Failed(message),
        relay_reaction(s, RelayEvent::TargetDone(Err(message))).1 == RelayAction::Failed(message),
{
}

/// Law: when one direction ends well, the connection is closed just where the other one is done
/// already; else the other one is given time. A relay remembers which of them are done.
pub proof fn relay_waits_for_the_other(s: Relay)
    ensures
        relay_reaction(s, RelayEvent::ClientDone(Ok(()))).1 is Closed <==> s.target_done,
        relay_reaction(s, RelayEvent::ClientDone(Ok(()))).1 is Linger <==> !s.target_done,
        relay_reaction(s, RelayEvent::TargetDone(Ok(()))).1 is Closed <==> s.client_done,
        relay_reaction(s, RelayEvent::TargetDone(Ok(()))).1 is Linger <==> !s.client_done,
        relay_reaction(s, RelayEvent::ClientDone(Ok(()))).0 == (Relay { client_done: true, ..s }),
        relay_reaction(s, RelayEvent::TargetDone(Ok(()))).0 == (Relay { target_done: true, ..s }),
{
}

/// Law: bytes are read in buffers of 8192, a side may be silent for five minutes, a write may take
/// half a minute, and a side whose other one is done has a quarter of a minute.
pub proof fn relay_limits()
    ensures
        RELAY_BUF_SIZE == 8192,
        IDLE_TIMEOUT_SECS == 300,
        WRITE_TIMEOUT_SECS == 30,
        LINGER_TIMEOUT_SECS == 15,
{
}

/// Law: the bytes of a write that is done are added to the counter of their direction and way, and
/// to no other; nothing else counts.
pub proof fn moved_bytes_reach_their_counter(
    s: stats::StatsView,
    is_direct: bool,
    n: usize,
    event: PumpEvent<Seq<char>>,
)
    requires
        s.direct_tx + n <= u64::MAX && s.direct_rx + n <= u64::MAX,
        s.upstream_tx + n <= u64::MAX && s.upstream_rx + n <= u64::MAX,
    ensures
        ({
            let sent = stats_after(
                s,
                is_direct,
                Flow::Sent,
                PumpPhase::Writing(n),
                PumpEvent::Written,
            );
            &&& sent.direct_rx == s.direct_rx && sent.upstream_rx == s.upstream_rx
            &&& sent.direct_tx == s.direct_tx + (if is_direct {
                n as int
            } else {
                0
            })
            &&& sent.upstream_tx == s.upstream_tx + (if is_direct {
                0
            } else {
                n as int
            })
            &&& sent == stats_after(
                s,
                is_direct,
                Flow::Sent,
                PumpPhase::Leftover(n),
                PumpEvent::Written,
            )
        }),
        ({
            let received = stats_after(
                s,
                is_direct,
                Flow::Received,
                PumpPhase::Writing(n),
                PumpEvent::Written,
            );
            &&& received.direct_tx == s.direct_tx && received.upstream_tx == s.upstream_tx
            &&& received.direct_rx == s.direct_rx + (if is_direct {
                n as int
            } else {
                0
            })
            &&& received.upstream_rx == s.upstream_rx + (if is_direct {
                0
            } else {
                n as int
            })
        }),
        !(event is Written) ==> stats_after(
            s,
            is_direct,
            Flow::Sent,
            PumpPhase::Writing(n),
            event,
        ) == s && stats_after(s, is_direct, Flow::Received, PumpPhase::Reading, event) == s,
{
}

/// Law: a message about a direction tells which side did not keep up: the side that reads where
/// writing took too long, the side that sends where nothing came. An error of the system is told in
/// its own words.
pub proof fn relay_messages_tell_the_side(e: PumpError<Seq<char>>, message: Seq<char>)
    ensures
        pump_error_text(PumpError::Io(message)) == message,
        e is LeftoverTimeout ==> pump_error_text(e) == "Target leftover write timeout ("@
            + seq!['3', '0'] + "s)"@,
        e == PumpError::<Seq<char>>::WriteTimeout(Flow::Sent) ==> pump_error_text(e)
            == "Target write timeout ("@ + seq!['3', '0'] + "s)"@,
        e == PumpError::<Seq<char>>::WriteTimeout(Flow::Received) ==> pump_error_text(e)
            == "Client write timeout ("@ + seq!['3', '0'] + "s)"@,
        e == PumpError::<Seq<char>>::IdleTimeout(Flow::Sent) ==> pump_error_text(e)
            == "Client connection idle timeout"@,
        e == PumpError::<Seq<char>>::IdleTimeout(Flow::Received) ==> pump_error_text(e)
            == "Target connection idle timeout"@,
{
    reveal_with_fuel(text::decimal, 2);
    assert(text::decimal(30) =~= seq!['3', '0']);
}

} // verus!
