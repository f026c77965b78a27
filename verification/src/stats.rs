//! Traffic counters and sizes as text.

use crate::clock::Stopwatch;
use crate::text;
use crate::text::push_decimal;
use vstd::prelude::*;
use vstd::string::*;

verus! {

// ---------------------------------------------------------------------------
// Counters
// ---------------------------------------------------------------------------

/// Which way bytes go.
#[derive(Clone, Copy, Debug, PartialEq, Eq, Structural)]
pub enum Flow {
    /// From the client to its destination.
    Sent,
    /// From the destination to the client.
    Received,
}

/// The bytes moved since the start, with and without a proxy upstream.
#[derive(Debug)]
pub struct TrafficStats {
    pub listen_addr: String,
    pub upstream_rx: u64,
    pub upstream_tx: u64,
    pub direct_rx: u64,
    pub direct_tx: u64,
    pub start_time: Stopwatch,
    pub traffic_active: bool,
}

/// What the counters are.
pub ghost struct StatsView {
    pub listen_addr: Seq<char>,
    pub upstream_rx: u64,
    pub upstream_tx: u64,
    pub direct_rx: u64,
    pub direct_tx: u64,
    pub traffic_active: bool,
}

impl View for TrafficStats {
    type V = StatsView;

    open spec fn view(&self) -> StatsView {
        StatsView {
            listen_addr: self.listen_addr@,
            upstream_rx: self.upstream_rx,
            upstream_tx: self.upstream_tx,
            direct_rx: self.direct_rx,
            direct_tx: self.direct_tx,
            traffic_active: self.traffic_active,
        }
    }
}

/// A counter after `n` more bytes; it starts over when it is full.
pub open spec fn counted(count: u64, n: u64) -> u64 {
    if count + n > u64::MAX {
        (count + n - u64::MAX - 1) as u64
    } else {
        (count + n) as u64
    }
}

/// The counters after `n` bytes went one way: just one of them changes.
pub open spec fn accounted(s: StatsView, is_direct: bool, flow: Flow, n: u64) -> StatsView {
    let active = StatsView { traffic_active: true, ..s };
    match (is_direct, flow) {
        (true, Flow::Sent) => StatsView { direct_tx: counted(s.direct_tx, n), ..active },
        (true, Flow::Received) => StatsView { direct_rx: counted(s.direct_rx, n), ..active },
        (false, Flow::Sent) => StatsView { upstream_tx: counted(s.upstream_tx, n), ..active },
        (false, Flow::Received) => StatsView { upstream_rx: counted(s.upstream_rx, n), ..active },
    }
}

/// The counters after something happened.
pub open spec fn touched(s: StatsView) -> StatsView {
    StatsView { traffic_active: true, ..s }
}

/// The counters after it was asked whether something happened, and whether it did.
pub open spec fn activity_taken(s: StatsView) -> (StatsView, bool) {
    (StatsView { traffic_active: false, ..s }, s.traffic_active)
}

impl TrafficStats {
    /// Counters at zero.
    pub fn new(listen_addr: String) -> (r: TrafficStats)
        ensures
            r@ == (StatsView {
                listen_addr: listen_addr@,
                upstream_rx: 0,
                upstream_tx: 0,
                direct_rx: 0,
                direct_tx: 0,
                traffic_active: false,
            }),
    {
        TrafficStats {
            listen_addr,
            upstream_rx: 0,
            upstream_tx: 0,
            direct_rx: 0,
            direct_tx: 0,
            start_time: Stopwatch::start(),
            traffic_active: false,
        }
    }

    /// Counts `n` bytes that went one way.
    pub fn account(&mut self, is_direct: bool, flow: Flow, n: u64)
        ensures
            final(self)@ == accounted(old(self)@, is_direct, flow, n),
    {
        match flow {
            Flow::Sent => if is_direct {
                self.direct_tx = self.direct_tx.wrapping_add(n);
            } else {
                self.upstream_tx = self.upstream_tx.wrapping_add(n);
            },
            Flow::Received => if is_direct {
                self.direct_rx = self.direct_rx.wrapping_add(n);
            } else {
                self.upstream_rx = self.upstream_rx.wrapping_add(n);
            },
        }
        self.traffic_active = true;
    }

    /// Notes that something happened.
    pub fn touch(&mut self)
        ensures
            final(self)@ == (StatsView { traffic_active: true, ..old(self)@ }),
            final(self)@ == touched(old(self)@),
    {
        self.traffic_active = true;
    }

    /// Whether something happened since the last call.
    pub fn take_activity(&mut self) -> (r: bool)
        ensures
            r == old(self)@.traffic_active,
            final(self)@ == (StatsView { traffic_active: false, ..old(self)@ }),
            (final(self)@, r) == activity_taken(old(self)@),
    {
        let active = self.traffic_active;
        self.traffic_active = false;
        active
    }
}

// ---------------------------------------------------------------------------
// Sizes
// ---------------------------------------------------------------------------

pub const KB: u64 = 0x400;

pub const MB: u64 = 0x10_0000;

pub const GB: u64 = 0x4000_0000;

pub const TB: u64 = 0x100_0000_0000;

/// The first whole number that double precision cannot hold together with its successor.
pub const DOUBLE_EXACT: u64 = 0x20_0000_0000_0000;

/// `n / d` rounded to the nearest whole number, ties to even.
pub open spec fn rounded(n: int, d: int) -> int {
    let q = n / d;
    let r = n % d;
    if 2 * r < d || (2 * r == d && q % 2 == 0) {
        q
    } else {
        q + 1
    }
}

/// The distance between neighbours of `n` in double precision.
pub open spec fn double_step(n: nat) -> nat
    decreases n,
{
    if n < DOUBLE_EXACT {
        1
    } else {
        2 * double_step(n / 2)
    }
}

/// `n` in double precision.
pub open spec fn as_double(n: nat) -> int {
    rounded(n as int, double_step(n) as int) * double_step(n)
}

/// The hundredths of a unit that are shown for `bytes`: reckoned in double precision, rounded to
/// the nearest.
pub open spec fn hundredths(bytes: nat, unit: nat) -> int {
    rounded(as_double(bytes) * 100, unit as int)
}

/// A number of hundredths as a decimal fraction with two places.
pub open spec fn two_places(n: nat) -> Seq<char> {
    text::decimal(n / 100) + "."@ + seq![text::digit(n / 10 % 10), text::digit(n % 10)]
}

/// A size as text, in the largest unit that it reaches.
pub open spec fn size_text(bytes: u64) -> Seq<char> {
    let n = bytes as nat;
    if bytes >= TB {
        two_places(hundredths(n, TB as nat) as nat) + " TB"@
    } else if bytes >= GB {
        two_places(hundredths(n, GB as nat) as nat) + " GB"@
    } else if bytes >= MB {
        two_places(hundredths(n, MB as nat) as nat) + " MB"@
    } else if bytes >= KB {
        two_places(hundredths(n, KB as nat) as nat) + " KB"@
    } else {
        text::decimal(n) + " B"@
    }
}

fn round(n: u128, d: u128) -> (r: u128)
    requires
        0 < d <= 0x100_0000_0000,
        n <= 0x100_0000_0000_0000_0000_0000,
    ensures
        r == rounded(n as int, d as int),
{
    let q: u128 = n / d;
    let rest: u128 = n % d;
    assert(n as int / d as int <= n as int) by (nonlinear_arith)
        requires
            d >= 1,
    ;
    if 2 * rest < d || (2 * rest == d && q % 2 == 0) {
        q
    } else {
        q + 1
    }
}

proof fn lemma_double_step_bound(n: nat, k: nat)
    requires
        n < DOUBLE_EXACT * vstd::arithmetic::power2::pow2(k),
    ensures
        1 <= double_step(n) <= vstd::arithmetic::power2::pow2(k),
    decreases k,
{
    if k == 0 {
        vstd::arithmetic::power2::lemma2_to64();
    } else {
        vstd::arithmetic::power2::lemma_pow2_unfold(k);
        vstd::arithmetic::power2::lemma_pow2_pos((k - 1) as nat);
        let p = vstd::arithmetic::power2::pow2((k - 1) as nat);
        assert(n / 2 < DOUBLE_EXACT * p) by (nonlinear_arith)
            requires
                n < DOUBLE_EXACT * (2 * p),
        ;
        lemma_double_step_bound(n / 2, (k - 1) as nat);
    }
}

proof fn lemma_rounded_bounds(n: int, d: int)
    requires
        0 <= n,
        0 < d,
    ensures
        0 <= rounded(n, d),
        rounded(n, d) * d <= n + d,
        2 * rounded(n, d) * d <= 2 * n + d,
        2 * n - d <= 2 * rounded(n, d) * d,
{
    let q = n / d;
    let r = n % d;
    vstd::arithmetic::div_mod::lemma_fundamental_div_mod(n, d);
    vstd::arithmetic::div_mod::lemma_div_pos_is_pos(n, d);
    assert(d * q == q * d) by (nonlinear_arith);
    assert((q + 1) * d == q * d + d) by (nonlinear_arith);
    assert(2 * q * d == 2 * (q * d)) by (nonlinear_arith);
    assert(2 * (q + 1) * d == 2 * (q * d) + 2 * d) by (nonlinear_arith);
}

fn to_double(bytes: u64) -> (r: u128)
    ensures
        r == as_double(bytes as nat),
        r <= bytes + 2048,
{
    let mut rest: u64 = bytes;
    let mut step: u128 = 1;
    proof {
        vstd::arithmetic::power2::lemma2_to64();
        lemma_double_step_bound(bytes as nat, 11);
    }
    while rest >= DOUBLE_EXACT
        invariant
            step >= 1,
            double_step(bytes as nat) == step * double_step(rest as nat),
            double_step(bytes as nat) <= 2048,
        decreases rest,
    {
        proof {
            let d = double_step((rest / 2) as nat);
            vstd::arithmetic::power2::lemma2_to64();
            lemma_double_step_bound((rest / 2) as nat, 11);
            assert(step * (2 * d) == step * 2 * d) by (nonlinear_arith);
            assert(step * 2 <= step * 2 * d) by (nonlinear_arith)
                requires
                    d >= 1,
                    step >= 1,
            ;
        }
        step = step * 2;
        rest = rest / 2;
    }
    proof {
        assert(double_step(rest as nat) == 1);
        assert(step * 1 == step);
        assert(double_step(bytes as nat) == step);
    }
    let q: u128 = round(bytes as u128, step);
    proof {
        lemma_rounded_bounds(bytes as int, step as int);
    }
    q * step
}

fn push_two_places(out: &mut String, n: u64)
    ensures
        final(out)@ == old(out)@ + two_places(n as nat),
{
    push_decimal(out, n / 100);
    out.append(".");
    out.push((48 + (n / 10 % 10) as u8) as char);
    out.push((48 + (n % 10) as u8) as char);
    assert(out@ =~= old(out)@ + two_places(n as nat));
}

fn scaled(bytes: u64, unit: u64, name: &str) -> (r: String)
    requires
        KB <= unit <= TB,
        bytes / unit < 0x100_0000,
    ensures
        r@ == two_places(hundredths(bytes as nat, unit as nat) as nat) + name@,
{
    let exact: u128 = to_double(bytes);
    let n: u128 = round(exact * 100, unit as u128);
    proof {
        lemma_rounded_bounds(exact as int * 100, unit as int);
        assert(bytes < 0x100_0000 * unit) by (nonlinear_arith)
            requires
                bytes / unit < 0x100_0000,
                unit > 0,
        ;
        assert(n * unit <= exact * 100 + unit);
        assert(n <= 0xFFFF_FFFF) by (nonlinear_arith)
            requires
                n * unit <= exact * 100 + unit,
                exact <= bytes + 2048,
                bytes < 0x100_0000 * unit,
                unit >= 0x400,
        ;
    }
    let mut out = "".to_string();
    proof {
        reveal_strlit("");
    }
    push_two_places(&mut out, n as u64);
    out.append(name);
    assert(out@ =~= two_places(n as nat) + name@);
    out
}

impl TrafficStats {
    /// Writes a size in the largest unit that it reaches.
    pub fn format_bytes(bytes: u64) -> (r: String)
        ensures
            r@ == size_text(bytes),
    {
        if bytes >= TB {
            scaled(bytes, TB, " TB")
        } else if bytes >= GB {
            scaled(bytes, GB, " GB")
        } else if bytes >= MB {
            scaled(bytes, MB, " MB")
        } else if bytes >= KB {
            scaled(bytes, KB, " KB")
        } else {
            let mut out = "".to_string();
            proof {
                reveal_strlit("");
            }
            push_decimal(&mut out, bytes);
            out.append(" B");
            assert(out@ =~= text::decimal(bytes as nat) + " B"@);
            out
        }
    }
}

// ---------------------------------------------------------------------------
// Laws
// ---------------------------------------------------------------------------

/// Law: what is shown of a size is off by at most half a hundredth of its unit, as long as the
/// size is one that double precision holds.
pub proof fn shown_size_is_close(bytes: nat, unit: nat)
    requires
        bytes < DOUBLE_EXACT,
        unit > 0,
    ensures
        -(unit as int) <= 2 * (hundredths(bytes, unit) * unit - bytes * 100) <= unit,
{
    assert(bytes as int / 1 == bytes as int);
    assert(bytes as int % 1 == 0);
    assert(double_step(bytes) == 1);
    assert(rounded(bytes as int, 1) == bytes);
    assert(rounded(bytes as int, 1) * 1 == bytes);
    assert(as_double(bytes) == bytes);
    lemma_rounded_bounds(bytes as int * 100, unit as int);
    let h = hundredths(bytes, unit);
    assert(2 * h * unit == 2 * (h * unit)) by (nonlinear_arith);
}

/// Law: bytes that are counted go to one counter, and the others keep what they have.
pub proof fn accounting_is_separate(s: StatsView, is_direct: bool, flow: Flow, n: u64)
    ensures
        !is_direct ==> accounted(s, is_direct, flow, n).direct_tx == s.direct_tx && accounted(
            s,
            is_direct,
            flow,
            n,
        ).direct_rx == s.direct_rx,
        is_direct ==> accounted(s, is_direct, flow, n).upstream_tx == s.upstream_tx && accounted(
            s,
            is_direct,
            flow,
            n,
        ).upstream_rx == s.upstream_rx,
        flow == Flow::Sent ==> accounted(s, is_direct, flow, n).direct_rx == s.direct_rx
            && accounted(s, is_direct, flow, n).upstream_rx == s.upstream_rx,
        flow == Flow::Received ==> accounted(s, is_direct, flow, n).direct_tx == s.direct_tx
            && accounted(s, is_direct, flow, n).upstream_tx == s.upstream_tx,
{
}

/// Law: bytes that are counted are added to the counter of their way, which starts over when it is
/// full; as long as it does not, all counters together grow by just so many. The address stays,
/// and there was activity.
pub proof fn accounting_adds_the_bytes(s: StatsView, is_direct: bool, flow: Flow, n: u64)
    ensures
        ({
            let t = accounted(s, is_direct, flow, n);
            let (before, after) = match (is_direct, flow) {
                (true, Flow::Sent) => (s.direct_tx, t.direct_tx),
                (true, Flow::Received) => (s.direct_rx, t.direct_rx),
                (false, Flow::Sent) => (s.upstream_tx, t.upstream_tx),
                (false, Flow::Received) => (s.upstream_rx, t.upstream_rx),
            };
            &&& before + n < 0x1_0000_0000_0000_0000 ==> after == before + n && t.direct_tx
                + t.direct_rx + t.upstream_tx + t.upstream_rx == s.direct_tx + s.direct_rx
                + s.upstream_tx + s.upstream_rx + n
            &&& before + n >= 0x1_0000_0000_0000_0000 ==> after + 0x1_0000_0000_0000_0000 == before
                + n
            &&& t.traffic_active
            &&& t.listen_addr == s.listen_addr
        }),
{
}

/// Law: counting in two parts is counting at once.
pub proof fn accounting_in_parts(s: StatsView, is_direct: bool, flow: Flow, a: u64, b: u64)
    requires
        a + b <= u64::MAX,
    ensures
        accounted(accounted(s, is_direct, flow, a), is_direct, flow, b) == accounted(
            s,
            is_direct,
            flow,
            (a + b) as u64,
        ),
{
}

/// A number of hundredths with a point before the last two digits.
pub open spec fn with_point(h: nat) -> Seq<char> {
    text::decimal(h / 100) + seq!['.'] + text::decimal(h / 10 % 10) + text::decimal(h % 10)
}

/// Whether a text shows a size in a unit: to the nearest hundredth, with the name of the unit.
pub open spec fn shows(shown: Seq<char>, bytes: u64, unit: nat, name: Seq<char>) -> bool {
    exists|h: nat|
        shown == #[trigger] with_point(h) + name && -(unit as int) <= 2 * (h * unit - bytes * 100)
            <= unit
}

proof fn lemma_whole_is_rounded(n: int)
    ensures
        rounded(n, 1) == n,
        rounded(n, 1) * 1 == n,
{
    assert(n / 1 == n && n % 1 == 0);
}

proof fn lemma_shows(bytes: u64, unit: nat, name: Seq<char>)
    requires
        bytes < 0x20_0000_0000_0000,
        unit > 0,
    ensures
        shows(
            two_places(hundredths(bytes as nat, unit) as nat) + name,
            bytes,
            unit,
            name,
        ),
{
    shown_size_is_close(bytes as nat, unit);
    let h = hundredths(bytes as nat, unit);
    assert(double_step(bytes as nat) == 1);
    lemma_whole_is_rounded(bytes as int);
    lemma_rounded_bounds(bytes as int * 100, unit as int);
    reveal_strlit(".");
    let n = h as nat;
    assert(text::decimal(n / 10 % 10) =~= seq![text::digit(n / 10 % 10)]);
    assert(text::decimal(n % 10) =~= seq![text::digit(n % 10)]);
    assert(two_places(n) =~= with_point(n));
    assert(n * unit == h * unit);
}

/// Law: a size below 1024 is shown in bytes as it is; any other one that double precision holds is
/// shown to the nearest hundredth, in the largest of the units of 1024, 1024 times that, and so on
/// up to terabytes, that it reaches.
pub proof fn sizes_are_shown_in_the_largest_unit(bytes: u64)
    ensures
        bytes < 1024 ==> size_text(bytes) == text::decimal(bytes as nat) + " B"@,
        1024 <= bytes < 1048576 ==> shows(size_text(bytes), bytes, 1024, " KB"@),
        1048576 <= bytes < 1073741824 ==> shows(size_text(bytes), bytes, 1048576, " MB"@),
        1073741824 <= bytes < 1099511627776 ==> shows(
            size_text(bytes),
            bytes,
            1073741824,
            " GB"@,
        ),
        1099511627776 <= bytes < 0x20_0000_0000_0000 ==> shows(
            size_text(bytes),
            bytes,
            1099511627776,
            " TB"@,
        ),
{
    if bytes < 0x20_0000_0000_0000 {
        lemma_shows(bytes, 1024, " KB"@);
        lemma_shows(bytes, 1048576, " MB"@);
        lemma_shows(bytes, 1073741824, " GB"@);
        lemma_shows(bytes, 1099511627776, " TB"@);
    }
}

/// Law: activity is told once: after something happened or bytes were counted it is, and then not
/// before something happens again. The counters are not touched by it.
pub proof fn activity_is_told_once(s: StatsView, is_direct: bool, flow: Flow, n: u64)
    ensures
        activity_taken(touched(s)).1,
        activity_taken(accounted(s, is_direct, flow, n)).1,
        !activity_taken(activity_taken(s).0).1,
        activity_taken(s).1 == s.traffic_active,
        ({
            let t = activity_taken(touched(s)).0;
            &&& t.direct_tx == s.direct_tx && t.direct_rx == s.direct_rx
            &&& t.upstream_tx == s.upstream_tx && t.upstream_rx == s.upstream_rx
            &&& t.listen_addr == s.listen_addr
        }),
{
}

} // verus!
