//! How to log.

use crate::config::{LogConfig, LogType};
use vstd::prelude::*;
use vstd::string::*;

verus! {

/// What setting up the log comes to.
#[derive(Debug)]
pub enum LogPlan<T> {
    /// No log.
    Silent,
    /// A log on the console.
    Console,
    /// A log in this file, flushed after so many entries or seconds.
    File { path: T, flush_count: usize, flush_interval_secs: u64 },
}

impl View for LogPlan<String> {
    type V = LogPlan<Seq<char>>;

    open spec fn view(&self) -> LogPlan<Seq<char>> {
        match self {
            LogPlan::Silent => LogPlan::Silent,
            LogPlan::Console => LogPlan::Console,
            LogPlan::File { path, flush_count, flush_interval_secs } => LogPlan::File {
                path: path@,
                flush_count: *flush_count,
                flush_interval_secs: *flush_interval_secs,
            },
        }
    }
}

/// Why the log cannot be set up.
#[derive(Clone, Copy, Debug, PartialEq, Eq, Structural)]
pub enum LogError {
    /// A log file is asked for and none is named.
    MissingFile,
}

impl LogError {
    /// The message of the error.
    pub fn message(&self) -> (r: String)
        ensures
            r@ == "Log file path is required when log_type is file"@,
    {
        "Log file path is required when log_type is file".to_string()
    }
}

/// Where the log goes: a build for debugging is never silent.
pub open spec fn effective_type(log_type: LogType, debug: bool) -> LogType {
    if debug && log_type == LogType::Off {
        LogType::Console
    } else {
        log_type
    }
}

/// What setting up the log comes to.
pub open spec fn log_plan(c: LogConfig, debug: bool) -> Result<LogPlan<Seq<char>>, LogError> {
    match effective_type(c.log_type, debug) {
        LogType::Off => Ok(LogPlan::Silent),
        LogType::Console => Ok(LogPlan::Console),
        LogType::File => match c.file {
            None => Err(LogError::MissingFile),
            Some(path) => Ok(
                LogPlan::File {
                    path: path@,
                    flush_count: c.flush_count,
                    flush_interval_secs: c.flush_interval_secs,
                },
            ),
        },
    }
}

/// Decides what setting up the log comes to, in a build for debugging or not.
pub fn plan_logging(config: &LogConfig, debug: bool) -> (r: Result<LogPlan<String>, LogError>)
    ensures
        match r {
            Ok(p) => log_plan(*config, debug) == Ok::<LogPlan<Seq<char>>, LogError>(p@),
            Err(e) => log_plan(*config, debug) == Err::<LogPlan<Seq<char>>, LogError>(e),
        },
{
    let log_type = if debug && config.log_type == LogType::Off {
        LogType::Console
    } else {
        config.log_type
    };
    match log_type {
        LogType::Off => Ok(LogPlan::Silent),
        LogType::Console => Ok(LogPlan::Console),
        LogType::File => match &config.file {
            None => Err(LogError::MissingFile),
            Some(path) => Ok(
                LogPlan::File {
                    path: path.clone(),
                    flush_count: config.flush_count,
                    flush_interval_secs: config.flush_interval_secs,
                },
            ),
        },
    }
}

/// When to flush a log file: after so many writes, or so long after the last time.
#[derive(Clone, Copy, Debug)]
pub struct FlushPolicy {
    pub count: usize,
    pub flush_count: usize,
    pub flush_interval_nanos: u128,
    pub last_flush: u128,
}

/// The nanoseconds from one reading of the clock to another; none where that is not later.
pub open spec fn elapsed_nanos(from: u128, to: u128) -> int {
    if to > from {
        to - from
    } else {
        0
    }
}

/// Whether one more write at `now` asks for a flush.
pub open spec fn is_due(p: FlushPolicy, now: u128) -> bool {
    p.count + 1 >= p.flush_count || elapsed_nanos(p.last_flush, now) >= p.flush_interval_nanos
}

/// A policy that counts from `now` on.
pub open spec fn fresh_policy(flush_count: usize, flush_interval_secs: u64, now: u128) -> FlushPolicy {
    FlushPolicy {
        count: 0,
        flush_count,
        flush_interval_nanos: (flush_interval_secs * 1_000_000_000) as u128,
        last_flush: now,
    }
}

/// The policy after a write of so many bytes.
pub open spec fn written_policy(p: FlushPolicy, len: usize) -> FlushPolicy {
    if len == 0 {
        p
    } else {
        FlushPolicy { count: (p.count + 1) as usize, ..p }
    }
}

/// Whether a write of so many bytes at `now` asks for a flush.
pub open spec fn asks_for_flush(p: FlushPolicy, len: usize, now: u128) -> bool {
    len > 0 && is_due(p, now)
}

/// The policy after a flush at `now`.
pub open spec fn flushed_policy(p: FlushPolicy, now: u128) -> FlushPolicy {
    FlushPolicy { count: 0, last_flush: now, ..p }
}

impl FlushPolicy {
    /// A policy that counts from `now` on.
    pub fn new(flush_count: usize, flush_interval_secs: u64, now: u128) -> (r: FlushPolicy)
        ensures
            r.count == 0,
            r.flush_count == flush_count,
            r.flush_interval_nanos == flush_interval_secs * 1_000_000_000,
            r.last_flush == now,
            r == fresh_policy(flush_count, flush_interval_secs, now),
    {
        FlushPolicy {
            count: 0,
            flush_count,
            flush_interval_nanos: flush_interval_secs as u128 * 1_000_000_000,
            last_flush: now,
        }
    }

    /// Counts a write of so many bytes at `now`, and tells whether the file is to be flushed. A
    /// write of none does not count.
    pub fn on_write(&mut self, len: usize, now: u128) -> (r: bool)
        requires
            old(self).count < usize::MAX,
        ensures
            len > 0 ==> *final(self) == (FlushPolicy {
                count: (old(self).count + 1) as usize,
                ..*old(self)
            }) && r == is_due(*old(self), now),
            len == 0 ==> *final(self) == *old(self) && !r,
            *final(self) == written_policy(*old(self), len),
            r == asks_for_flush(*old(self), len, now),
    {
        if len == 0 {
            return false;
        }
        self.count = self.count + 1;
        let elapsed: u128 = now.saturating_sub(self.last_flush);
        self.count >= self.flush_count || elapsed >= self.flush_interval_nanos
    }

    /// Starts over after the file was flushed at `now`.
    pub fn on_flushed(&mut self, now: u128)
        ensures
            *final(self) == (FlushPolicy { count: 0, last_flush: now, ..*old(self) }),
            *final(self) == flushed_policy(*old(self), now),
    {
        self.count = 0;
        self.last_flush = now;
    }
}

/// A text with spaces behind it up to a width.
pub open spec fn padded(s: Seq<char>, width: nat) -> Seq<char>
    decreases width - s.len(),
{
    if s.len() >= width {
        s
    } else {
        padded(s.push(' '), width)
    }
}

/// A line of the log. `style` and `reset` switch the color of the level on and off.
pub open spec fn entry_text(
    time: Seq<char>,
    style: Seq<char>,
    level: Seq<char>,
    reset: Seq<char>,
    target: Seq<char>,
    message: Seq<char>,
) -> Seq<char> {
    "["@ + time + " "@ + style + padded(level, 5) + reset + " "@ + target + "] "@ + message + "\n"@
}

fn push_padded(out: &mut String, s: &str)
    ensures
        final(out)@ == old(out)@ + padded(s@, 5),
{
    out.append(s);
    let mut n: usize = s.unicode_len();
    let ghost shown = s@;
    while n < 5
        invariant
            n == shown.len(),
            out@ == old(out)@ + shown,
            padded(s@, 5) == padded(shown, 5),
        decreases 5 - n,
    {
        out.push(' ');
        proof {
            assert(out@ =~= old(out)@ + shown.push(' '));
            shown = shown.push(' ');
        }
        n = n + 1;
    }
}

/// Writes a line of the log.
pub fn log_line(
    time: &str,
    style: &str,
    level: &str,
    reset: &str,
    target: &str,
    message: &str,
) -> (r: String)
    ensures
        r@ == entry_text(time@, style@, level@, reset@, target@, message@),
{
    let mut out = "[".to_string();
    out.append(time);
    out.append(" ");
    out.append(style);
    push_padded(&mut out, level);
    out.append(reset);
    out.append(" ");
    out.append(target);
    out.append("] ");
    out.append(message);
    out.append("\n");
    out
}

// ---------------------------------------------------------------------------
// Laws
// ---------------------------------------------------------------------------

/// The policy after a write of so many bytes at `now`, followed by the flush that it asks for.
pub open spec fn after_write(p: FlushPolicy, len: usize, now: u128) -> FlushPolicy {
    if asks_for_flush(p, len, now) {
        flushed_policy(written_policy(p, len), now)
    } else {
        written_policy(p, len)
    }
}

/// The policy after writes of some lengths at some times, each followed by the flush that it asks
/// for.
pub open spec fn after_all(p: FlushPolicy, writes: Seq<(usize, u128)>) -> FlushPolicy
    decreases writes.len(),
{
    if writes.len() == 0 {
        p
    } else {
        after_write(after_all(p, writes.drop_last()), writes.last().0, writes.last().1)
    }
}

/// The times of the writes that count.
pub open spec fn counted_times(writes: Seq<(usize, u128)>) -> Seq<u128>
    decreases writes.len(),
{
    if writes.len() == 0 {
        Seq::empty()
    } else {
        let before = counted_times(writes.drop_last());
        if writes.last().0 == 0 {
            before
        } else {
            before.push(writes.last().1)
        }
    }
}

/// The policy after writes at these times that count, each followed by the flush that it asks for.
pub open spec fn after_writes(p: FlushPolicy, times: Seq<u128>) -> FlushPolicy
    decreases times.len(),
{
    if times.len() == 0 {
        p
    } else {
        let q = after_writes(p, times.drop_last());
        let now = times.last();
        if is_due(q, now) {
            FlushPolicy { count: 0, last_flush: now, ..q }
        } else {
            FlushPolicy { count: (q.count + 1) as usize, ..q }
        }
    }
}

/// Law: fewer writes are pending than the policy allows, whenever they come.
pub proof fn pending_writes_are_bounded(p: FlushPolicy, times: Seq<u128>)
    requires
        p.count == 0 || p.count < p.flush_count,
    ensures
        after_writes(p, times).count == 0 || after_writes(p, times).count < p.flush_count,
        after_writes(p, times).flush_count == p.flush_count,
    decreases times.len(),
{
    if times.len() > 0 {
        pending_writes_are_bounded(p, times.drop_last());
    }
}

/// Law: writes of no bytes change nothing, wherever they come.
pub proof fn empty_writes_do_not_count(p: FlushPolicy, writes: Seq<(usize, u128)>)
    ensures
        after_all(p, writes) == after_writes(p, counted_times(writes)),
    decreases writes.len(),
{
    if writes.len() > 0 {
        empty_writes_do_not_count(p, writes.drop_last());
        let before = counted_times(writes.drop_last());
        assert(before.push(writes.last().1).drop_last() =~= before);
    }
}

/// Whether every write comes before the interval since the flush before it has passed.
pub open spec fn in_time(p: FlushPolicy, times: Seq<u128>) -> bool {
    forall|i: int|
        0 <= i < times.len() ==> elapsed_nanos(
            (#[trigger] after_writes(p, times.take(i))).last_flush,
            times[i],
        ) < p.flush_interval_nanos
}

proof fn lemma_settings_stay(p: FlushPolicy, times: Seq<u128>)
    ensures
        after_writes(p, times).flush_count == p.flush_count,
        after_writes(p, times).flush_interval_nanos == p.flush_interval_nanos,
    decreases times.len(),
{
    if times.len() > 0 {
        lemma_settings_stay(p, times.drop_last());
    }
}

/// Law: while the interval does not pass, every write whose number is a multiple of the count is
/// flushed, and no other.
pub proof fn writes_are_flushed_by_count(p: FlushPolicy, times: Seq<u128>)
    requires
        p.count == 0,
        p.flush_count >= 1,
        in_time(p, times),
    ensures
        after_writes(p, times).count == times.len() % (p.flush_count as nat),
        forall|i: int|
            0 <= i < times.len() ==> is_due(#[trigger] after_writes(p, times.take(i)), times[i])
                == ((i + 1) % (p.flush_count as int) == 0),
    decreases times.len(),
{
    let n = p.flush_count as int;
    if times.len() == 0 {
        vstd::arithmetic::div_mod::lemma_small_mod(0, n as nat);
    } else {
        let init = times.drop_last();
        let k = init.len() as int;
        assert(times.take(k) =~= init);
        assert forall|i: int| 0 <= i < k implies #[trigger] after_writes(p, init.take(i))
            == after_writes(p, times.take(i)) by {
            assert(init.take(i) =~= times.take(i));
        }
        assert(in_time(p, init));
        writes_are_flushed_by_count(p, init);
        lemma_settings_stay(p, init);
        let q = after_writes(p, init);
        assert(elapsed_nanos(q.last_flush, times[k]) < p.flush_interval_nanos) by {
            assert(after_writes(p, times.take(k)) == q);
        }
        lemma_next_remainder(k, n);
        assert forall|i: int| 0 <= i < times.len() implies is_due(
            #[trigger] after_writes(p, times.take(i)),
            times[i],
        ) == ((i + 1) % n == 0) by {
            if i < k {
                assert(after_writes(p, init.take(i)) == after_writes(p, times.take(i)));
            }
        }
    }
}

proof fn lemma_next_remainder(k: int, n: int)
    requires
        k >= 0,
        n >= 1,
    ensures
        0 <= k % n < n,
        k % n == n - 1 ==> (k + 1) % n == 0,
        k % n != n - 1 ==> (k + 1) % n == k % n + 1,
{
    vstd::arithmetic::div_mod::lemma_fundamental_div_mod(k, n);
    vstd::arithmetic::div_mod::lemma_mod_bound(k, n);
    let q = k / n;
    if k % n == n - 1 {
        assert(k + 1 == (q + 1) * n + 0) by (nonlinear_arith)
            requires
                k == n * q + (n - 1),
        ;
        vstd::arithmetic::div_mod::lemma_fundamental_div_mod_converse(k + 1, n, q + 1, 0);
    } else {
        assert(k + 1 == q * n + (k % n + 1)) by (nonlinear_arith)
            requires
                k == n * q + k % n,
        ;
        vstd::arithmetic::div_mod::lemma_fundamental_div_mod_converse(k + 1, n, q, k % n + 1);
    }
}

proof fn lemma_flushes_come_later(p: FlushPolicy, times: Seq<u128>)
    requires
        forall|i: int| 0 <= i < times.len() ==> p.last_flush <= #[trigger] times[i],
    ensures
        p.last_flush <= after_writes(p, times).last_flush,
    decreases times.len(),
{
    if times.len() > 0 {
        let init = times.drop_last();
        assert forall|i: int| 0 <= i < init.len() implies p.last_flush <= #[trigger] init[i] by {
            assert(init[i] == times[i]);
        }
        lemma_flushes_come_later(p, init);
        assert(times.last() == times[times.len() - 1]);
    }
}

/// Law: after writes that all come within one interval of the start, in whatever order, the number
/// of those that are pending is the remainder by the count.
pub proof fn early_writes_are_flushed_by_count(p: FlushPolicy, times: Seq<u128>)
    requires
        p.count == 0,
        p.flush_count >= 1,
        forall|i: int|
            0 <= i < times.len() ==> p.last_flush <= #[trigger] times[i] < p.last_flush
                + p.flush_interval_nanos,
    ensures
        after_writes(p, times).count == times.len() % (p.flush_count as nat),
{
    assert forall|i: int| 0 <= i < times.len() implies elapsed_nanos(
        (#[trigger] after_writes(p, times.take(i))).last_flush,
        times[i],
    ) < p.flush_interval_nanos by {
        let init = times.take(i);
        assert forall|j: int| 0 <= j < init.len() implies p.last_flush <= #[trigger] init[j] by {
            assert(init[j] == times[j]);
        }
        lemma_flushes_come_later(p, init);
    }
    writes_are_flushed_by_count(p, times);
}

proof fn lemma_writes_in_turn(p: FlushPolicy, first: Seq<u128>, next: Seq<u128>)
    ensures
        after_writes(p, first + next) == after_writes(after_writes(p, first), next),
    decreases next.len(),
{
    if next.len() == 0 {
        assert(first + next =~= first);
    } else {
        assert((first + next).drop_last() =~= first + next.drop_last());
        lemma_writes_in_turn(p, first, next.drop_last());
    }
}

/// Law: the first write after the interval since the last flush has passed is flushed, however few
/// are pending, and the count starts over with it.
pub proof fn overdue_write_is_flushed(
    p: FlushPolicy,
    times: Seq<u128>,
    now: u128,
    later: Seq<u128>,
)
    requires
        elapsed_nanos(after_writes(p, times).last_flush, now) >= p.flush_interval_nanos,
    ensures
        is_due(after_writes(p, times), now),
        after_writes(p, times.push(now)) == (FlushPolicy { count: 0, last_flush: now, ..p }),
        p.flush_count >= 1 && in_time(FlushPolicy { count: 0, last_flush: now, ..p }, later)
            ==> after_writes(p, times.push(now) + later).count == later.len() % (
        p.flush_count as nat),
{
    lemma_settings_stay(p, times);
    assert(times.push(now).drop_last() =~= times);
    let q = FlushPolicy { count: 0, last_flush: now, ..p };
    assert(after_writes(p, times.push(now)) == q);
    lemma_writes_in_turn(p, times.push(now), later);
    if p.flush_count >= 1 && in_time(q, later) {
        writes_are_flushed_by_count(q, later);
    }
}

/// Law: a write is flushed at the latest when it makes up the count or the interval since the last
/// flush has passed, and for no other reason.
pub proof fn writes_are_due_by_count_or_time(p: FlushPolicy, now: u128)
    ensures
        is_due(p, now) <==> p.count + 1 >= p.flush_count || now >= p.last_flush
            + p.flush_interval_nanos || p.flush_interval_nanos == 0,
{
}

/// Law: the log goes where the configuration says, and a file is flushed as it says; a file that is
/// not named is an error. Without a log, a build for debugging writes to the console all the same.
pub proof fn log_goes_where_it_is_configured(c: LogConfig, debug: bool)
    ensures
        c.log_type is Console ==> log_plan(c, debug) == Ok::<LogPlan<Seq<char>>, LogError>(
            LogPlan::Console,
        ),
        c.log_type is Off ==> log_plan(c, true) == Ok::<LogPlan<Seq<char>>, LogError>(
            LogPlan::Console,
        ),
        c.log_type is Off ==> log_plan(c, false) == Ok::<LogPlan<Seq<char>>, LogError>(
            LogPlan::Silent,
        ),
        c.log_type is File && c.file is None ==> log_plan(c, debug) == Err::<
            LogPlan<Seq<char>>,
            LogError,
        >(LogError::MissingFile),
        c.log_type is File ==> (c.file matches Some(path) ==> log_plan(c, debug) == Ok::<
            LogPlan<Seq<char>>,
            LogError,
        >(
            LogPlan::File {
                path: path@,
                flush_count: c.flush_count,
                flush_interval_secs: c.flush_interval_secs,
            },
        )),
{
}

/// Law: a text that is filled up is the text and then blanks, up to the width and no further.
pub proof fn filling_up_adds_blanks(s: Seq<char>, width: nat)
    ensures
        padded(s, width).len() == (if s.len() > width {
            s.len()
        } else {
            width
        }),
        padded(s, width).take(s.len() as int) == s,
        forall|i: int| s.len() <= i < padded(s, width).len() ==> padded(s, width)[i] == ' ',
    decreases width - s.len(),
{
    if s.len() < width {
        let longer = s.push(' ');
        filling_up_adds_blanks(longer, width);
        let all = padded(s, width);
        assert(all.take(longer.len() as int)[s.len() as int] == ' ');
        assert(all.take(s.len() as int) =~= all.take(longer.len() as int).take(s.len() as int));
        assert(longer.take(s.len() as int) =~= s);
    } else {
        assert(s.take(s.len() as int) =~= s);
    }
}

/// Law: an entry of the log is a line: the time, the level in five places, and the source in
/// brackets, and then the message.
pub proof fn entries_have_their_form(
    time: Seq<char>,
    level: Seq<char>,
    target: Seq<char>,
    message: Seq<char>,
    style: Seq<char>,
    reset: Seq<char>,
)
    ensures
        entry_text(time, style, level, reset, target, message) == seq!['['] + time + seq![' ']
            + style + padded(level, 5) + reset + seq![' '] + target + seq![']', ' '] + message
            + seq!['\n'],
{
    reveal_strlit("[");
    reveal_strlit(" ");
    reveal_strlit("] ");
    reveal_strlit("\n");
    assert("["@ =~= seq!['[']);
    assert(" "@ =~= seq![' ']);
    assert("] "@ =~= seq![']', ' ']);
    assert("\n"@ =~= seq!['\n']);
}

/// Law: a policy begins with nothing pending, and with the count and the seconds that it is given.
pub proof fn policies_begin_as_configured(flush_count: usize, secs: u64, now: u128)
    ensures
        ({
            let p = fresh_policy(flush_count, secs, now);
            &&& p.count == 0 && p.last_flush == now && p.flush_count == flush_count
            &&& p.flush_interval_nanos == secs * 1_000_000_000
        }),
{
}

} // verus!
