//! The decisions and texts of the tray icon.

use crate::stats;
use crate::stats::TrafficStats;
use crate::text;
use crate::text::{push_decimal, same_chars, to_chars, to_lower};
use vstd::prelude::*;
use vstd::string::*;

verus! {

/// How often activity is looked for, in milliseconds.
pub const ACTIVITY_CHECK_INTERVAL_MILLIS: u64 = 500;

/// How long to wait between updates while the pointer hovers, in nanoseconds.
pub const HOVER_THROTTLE_NANOS: u128 = 200_000_000;

/// How long an orderly exit may take, in seconds.
pub const FORCE_EXIT_TIMEOUT_SECS: u64 = 3;

/// The size of the buffers for paths, in units of sixteen bits.
pub const PATH_BUFFER_SIZE: usize = 1024;

// ---------------------------------------------------------------------------
// Icons
// ---------------------------------------------------------------------------

/// The width and height of the icon.
pub const ICON_SIZE: usize = 32;

/// A byte of the icon: every other pixel is colored, green or gray, the rest is transparent.
pub open spec fn icon_byte(active: bool, k: int) -> u8 {
    let pixel = k / 4;
    let channel = k % 4;
    if (pixel % 32 + pixel / 32) % 2 != 0 {
        0
    } else if channel == 3 {
        255
    } else if !active {
        100
    } else if channel == 1 {
        255
    } else {
        0
    }
}

/// The pixels of the icon, row by row, each as red, green, blue and opacity.
pub open spec fn icon_pixels(active: bool) -> Seq<u8> {
    Seq::new(4096, |k: int| icon_byte(active, k))
}

/// Draws the icon.
pub fn create_simple_icon(active: bool) -> (r: Vec<u8>)
    ensures
        r@ == icon_pixels(active),
{
    let mut rgba: Vec<u8> = Vec::new();
    let (red, green, blue): (u8, u8, u8) = if active {
        (0, 255, 0)
    } else {
        (100, 100, 100)
    };
    let mut y: usize = 0;
    while y < ICON_SIZE
        invariant
            y <= ICON_SIZE,
            (red, green, blue) == (if active {
                (0u8, 255u8, 0u8)
            } else {
                (100u8, 100u8, 100u8)
            }),
            rgba@ == icon_pixels(active).take(y * 128),
        decreases ICON_SIZE - y,
    {
        let mut x: usize = 0;
        while x < ICON_SIZE
            invariant
                y < ICON_SIZE,
                x <= ICON_SIZE,
                (red, green, blue) == (if active {
                    (0u8, 255u8, 0u8)
                } else {
                    (100u8, 100u8, 100u8)
                }),
                rgba@ == icon_pixels(active).take(y * 128 + x * 4),
            decreases ICON_SIZE - x,
        {
            let ghost k = y * 128 + x * 4;
            proof {
                lemma_pixel(x as int, y as int);
            }
            if (x + y) % 2 == 0 {
                rgba.push(red);
                rgba.push(green);
                rgba.push(blue);
                rgba.push(255);
            } else {
                rgba.push(0);
                rgba.push(0);
                rgba.push(0);
                rgba.push(0);
            }
            assert(rgba@ =~= icon_pixels(active).take(k + 4));
            x = x + 1;
        }
        y = y + 1;
    }
    assert(icon_pixels(active).take(4096) =~= icon_pixels(active));
    rgba
}

proof fn lemma_pixel(x: int, y: int)
    requires
        0 <= x < 32,
        0 <= y < 32,
    ensures
        forall|c: int|
            0 <= c < 4 ==> #[trigger] ((y * 128 + x * 4 + c) / 4) == y * 32 + x && (y * 128 + x * 4
                + c) % 4 == c,
        (y * 32 + x) % 32 == x,
        (y * 32 + x) / 32 == y,
{
}

/// The place of a channel when red and blue are exchanged.
pub open spec fn exchanged(i: int) -> int {
    if i % 4 == 0 {
        i + 2
    } else if i % 4 == 2 {
        i - 2
    } else {
        i
    }
}

/// Pixels with red and blue exchanged.
pub open spec fn bgra_of(rgba: Seq<u8>) -> Seq<u8> {
    Seq::new(rgba.len(), |i: int| rgba[exchanged(i)])
}

/// Exchanges the red and the blue of each pixel.
pub fn rgba_to_bgra(rgba: &[u8]) -> (r: Vec<u8>)
    requires
        rgba@.len() % 4 == 0,
    ensures
        r@ == bgra_of(rgba@),
{
    let mut bgra: Vec<u8> = Vec::new();
    let mut i: usize = 0;
    while i < rgba.len()
        invariant
            i <= rgba@.len(),
            i % 4 == 0,
            rgba@.len() % 4 == 0,
            bgra@ == bgra_of(rgba@).take(i as int),
        decreases rgba@.len() - i,
    {
        bgra.push(rgba[i + 2]);
        bgra.push(rgba[i + 1]);
        bgra.push(rgba[i]);
        bgra.push(rgba[i + 3]);
        assert(bgra@ =~= bgra_of(rgba@).take(i + 4));
        i = i + 4;
    }
    assert(bgra_of(rgba@).take(i as int) =~= bgra_of(rgba@));
    bgra
}

/// Law: to exchange red and blue twice changes nothing.
pub proof fn exchange_undoes_itself(rgba: Seq<u8>)
    requires
        rgba.len() % 4 == 0,
    ensures
        bgra_of(bgra_of(rgba)) == rgba,
{
    assert(bgra_of(bgra_of(rgba)) =~= rgba);
}

/// Law: a pixel of the icon is either colored and opaque or wholly transparent, and its neighbor
/// in the row is the other.
pub proof fn icon_is_a_checkerboard(active: bool, x: int, y: int)
    requires
        0 <= x < 31,
        0 <= y < 32,
    ensures
        icon_pixels(active)[y * 128 + x * 4 + 3] == 0 <==> icon_pixels(active)[y * 128 + (x + 1) * 4
            + 3] == 255,
        icon_pixels(active)[y * 128 + x * 4 + 3] == 0 || icon_pixels(active)[y * 128 + x * 4 + 3]
            == 255,
{
    lemma_pixel(x, y);
    lemma_pixel(x + 1, y);
    let a = y * 128 + x * 4 + 3;
    let b = y * 128 + (x + 1) * 4 + 3;
    assert(a / 4 == y * 32 + x);
    assert(b / 4 == y * 32 + (x + 1));
}

/// Which icon to show when it shows activity or not and there was traffic or not; none where that
/// changes nothing.
pub open spec fn icon_change(active: bool, traffic: bool) -> Option<bool> {
    if traffic != active {
        Some(traffic)
    } else {
        None
    }
}

/// Whether the icon shows activity.
#[derive(Clone, Copy, Debug)]
pub struct ActivityIcon {
    pub active: bool,
}

impl ActivityIcon {
    /// An icon that shows none.
    pub fn new() -> (r: ActivityIcon)
        ensures
            !r.active,
    {
        ActivityIcon { active: false }
    }

    /// Takes in whether there was traffic, and tells which icon to show when that changed.
    pub fn check(&mut self, traffic: bool) -> (r: Option<bool>)
        ensures
            final(self).active == traffic,
            r == (if traffic != old(self).active {
                Some(traffic)
            } else {
                None
            }),
            r == icon_change(old(self).active, traffic),
    {
        if traffic != self.active {
            self.active = traffic;
            Some(traffic)
        } else {
            None
        }
    }
}

/// Whether the tooltip is updated when the pointer moves at `now`.
pub open spec fn hover_is_due(last_update: u128, now: u128) -> bool {
    now - last_update > HOVER_THROTTLE_NANOS
}

/// When the tooltip was last updated, in nanoseconds.
#[derive(Clone, Copy, Debug)]
pub struct HoverThrottle {
    pub last_update: u128,
}

impl HoverThrottle {
    /// A throttle that counts from `now` on.
    pub fn new(now: u128) -> (r: HoverThrottle)
        ensures
            r.last_update == now,
    {
        HoverThrottle { last_update: now }
    }

    /// Whether to update the tooltip when the pointer moves at `now`.
    pub fn hover(&mut self, now: u128) -> (r: bool)
        ensures
            r == (now - old(self).last_update > HOVER_THROTTLE_NANOS),
            r == hover_is_due(old(self).last_update, now),
            final(self).last_update == (if r {
                now
            } else {
                old(self).last_update
            }),
    {
        if now > self.last_update && now - self.last_update > HOVER_THROTTLE_NANOS {
            self.last_update = now;
            true
        } else {
            false
        }
    }
}

// ---------------------------------------------------------------------------
// Menu and messages
// ---------------------------------------------------------------------------

/// The ids of the menu items.
#[derive(Debug)]
pub struct MenuIds<T> {
    pub quit: T,
    pub autostart: T,
    pub stats: T,
    pub open_dir: T,
    pub traffic: T,
}

impl View for MenuIds<String> {
    type V = MenuIds<Seq<char>>;

    open spec fn view(&self) -> MenuIds<Seq<char>> {
        MenuIds {
            quit: self.quit@,
            autostart: self.autostart@,
            stats: self.stats@,
            open_dir: self.open_dir@,
            traffic: self.traffic@,
        }
    }
}

/// What a menu item asks for.
#[derive(Clone, Copy, Debug, PartialEq, Eq, Structural)]
pub enum MenuAction {
    Quit,
    ToggleAutostart,
    ShowStats,
    OpenDirectory,
    ShowTraffic,
    Ignore,
}

/// What the item with this id asks for.
pub open spec fn action_of(ids: MenuIds<Seq<char>>, id: Seq<char>) -> MenuAction {
    if id == ids.quit {
        MenuAction::Quit
    } else if id == ids.autostart {
        MenuAction::ToggleAutostart
    } else if id == ids.stats {
        MenuAction::ShowStats
    } else if id == ids.open_dir {
        MenuAction::OpenDirectory
    } else if id == ids.traffic {
        MenuAction::ShowTraffic
    } else {
        MenuAction::Ignore
    }
}

/// Decides what a menu item asks for.
pub fn menu_action(ids: &MenuIds<String>, id: &str) -> (r: MenuAction)
    ensures
        r == action_of(ids@, id@),
{
    let id = to_chars(id);
    if same_chars(&id, &to_chars(ids.quit.as_str())) {
        MenuAction::Quit
    } else if same_chars(&id, &to_chars(ids.autostart.as_str())) {
        MenuAction::ToggleAutostart
    } else if same_chars(&id, &to_chars(ids.stats.as_str())) {
        MenuAction::ShowStats
    } else if same_chars(&id, &to_chars(ids.open_dir.as_str())) {
        MenuAction::OpenDirectory
    } else if same_chars(&id, &to_chars(ids.traffic.as_str())) {
        MenuAction::ShowTraffic
    } else {
        MenuAction::Ignore
    }
}

/// The first message that is free for an application's own use.
pub const WM_USER: u32 = 0x400;

pub const MSG_ICON: u32 = 0x401;

pub const MSG_QUIT: u32 = 0x402;

pub const MSG_TOOLTIP: u32 = 0x403;

/// What a message of the loop asks for.
#[derive(Clone, Copy, Debug, PartialEq, Eq, Structural)]
pub enum MessageAction {
    Quit,
    /// Show the icon for activity, or the other one.
    SetIcon(bool),
    UpdateTooltip,
    /// Hand the message on.
    Dispatch,
}

/// What a message asks for.
pub open spec fn message_meaning(message: u32, parameter: usize) -> MessageAction {
    if message == MSG_QUIT {
        MessageAction::Quit
    } else if message == MSG_ICON {
        MessageAction::SetIcon(parameter != 0)
    } else if message == MSG_TOOLTIP {
        MessageAction::UpdateTooltip
    } else {
        MessageAction::Dispatch
    }
}

/// Decides what a message asks for.
pub fn message_action(message: u32, parameter: usize) -> (r: MessageAction)
    ensures
        r == message_meaning(message, parameter),
{
    if message == MSG_QUIT {
        MessageAction::Quit
    } else if message == MSG_ICON {
        MessageAction::SetIcon(parameter != 0)
    } else if message == MSG_TOOLTIP {
        MessageAction::UpdateTooltip
    } else {
        MessageAction::Dispatch
    }
}

// ---------------------------------------------------------------------------
// Texts
// ---------------------------------------------------------------------------

/// The name of the application.
pub open spec fn name_of_app() -> Seq<char> {
    "Simple Forwarder"@
}

/// The name of the application.
pub fn app_name() -> (r: &'static str)
    ensures
        r@ == name_of_app(),
{
    "Simple Forwarder"
}

/// Digits in groups of three.
pub open spec fn grouped(s: Seq<char>) -> Seq<char>
    decreases s.len(),
{
    if s.len() <= 3 {
        s
    } else {
        grouped(s.take(s.len() - 3)) + ","@ + s.skip(s.len() - 3)
    }
}

fn push_range(out: &mut String, s: &Vec<char>, lo: usize, hi: usize)
    requires
        lo <= hi <= s@.len(),
    ensures
        final(out)@ == old(out)@ + s@.subrange(lo as int, hi as int),
{
    let mut i: usize = lo;
    assert(s@.subrange(lo as int, lo as int) =~= Seq::empty());
    while i < hi
        invariant
            lo <= i <= hi <= s@.len(),
            out@ == old(out)@ + s@.subrange(lo as int, i as int),
        decreases hi - i,
    {
        out.push(s[i]);
        assert(s@.subrange(lo as int, i as int).push(s@[i as int]) =~= s@.subrange(
            lo as int,
            i + 1,
        ));
        i = i + 1;
    }
}

fn push_grouped(out: &mut String, s: &Vec<char>, n: usize)
    requires
        n <= s@.len(),
    ensures
        final(out)@ == old(out)@ + grouped(s@.take(n as int)),
    decreases n,
{
    let ghost head = s@.take(n as int);
    if n <= 3 {
        push_range(out, s, 0, n);
        assert(s@.subrange(0, n as int) =~= head);
    } else {
        push_grouped(out, s, n - 3);
        out.append(",");
        push_range(out, s, n - 3, n);
        proof {
            assert(head.take(n - 3) =~= s@.take(n - 3));
            assert(s@.subrange(n - 3, n as int) =~= head.skip(n - 3));
            assert(out@ =~= old(out)@ + grouped(head));
        }
    }
}

/// Writes a number with a comma before every three digits.
pub fn format_with_commas(n: usize) -> (r: String)
    ensures
        r@ == grouped(text::decimal(n as nat)),
{
    let mut digits = "".to_string();
    let mut out = "".to_string();
    proof {
        reveal_strlit("");
    }
    push_decimal(&mut digits, n as u64);
    let chars = to_chars(digits.as_str());
    push_grouped(&mut out, &chars, chars.len());
    proof {
        assert(chars@ =~= text::decimal(n as nat));
        assert(chars@.take(chars@.len() as int) =~= chars@);
        assert(out@ =~= grouped(text::decimal(n as nat)));
    }
    out
}

/// A text without its commas.
pub open spec fn without_commas(s: Seq<char>) -> Seq<char>
    decreases s.len(),
{
    if s.len() == 0 {
        s
    } else if s.last() == ',' {
        without_commas(s.drop_last())
    } else {
        without_commas(s.drop_last()).push(s.last())
    }
}

proof fn lemma_without_commas_append(a: Seq<char>, b: Seq<char>)
    ensures
        without_commas(a + b) == without_commas(a) + without_commas(b),
    decreases b.len(),
{
    if b.len() == 0 {
        assert(a + b =~= a);
        assert(without_commas(a) + without_commas(b) =~= without_commas(a));
    } else {
        assert((a + b).drop_last() =~= a + b.drop_last());
        assert((a + b).last() == b.last());
        lemma_without_commas_append(a, b.drop_last());
        assert(without_commas(a + b) =~= without_commas(a) + without_commas(b));
    }
}

proof fn lemma_no_commas(s: Seq<char>)
    requires
        !s.contains(','),
    ensures
        without_commas(s) == s,
    decreases s.len(),
{
    if s.len() > 0 {
        let init = s.drop_last();
        assert(s.contains(s.last())) by {
            assert(s[s.len() - 1] == s.last());
        }
        if init.contains(',') {
            let i = choose|i: int| 0 <= i < init.len() && init[i] == ',';
            assert(s[i] == ',');
        }
        lemma_no_commas(init);
        assert(init.push(s.last()) =~= s);
    }
}

/// Law: the commas are all that is added to a number.
pub proof fn commas_can_be_removed(s: Seq<char>)
    requires
        !s.contains(','),
    ensures
        without_commas(grouped(s)) == s,
    decreases s.len(),
{
    if s.len() <= 3 {
        lemma_no_commas(s);
    } else {
        let a = s.take(s.len() - 3);
        let b = s.skip(s.len() - 3);
        if a.contains(',') {
            let i = choose|i: int| 0 <= i < a.len() && a[i] == ',';
            assert(s[i] == ',');
        }
        if b.contains(',') {
            let i = choose|i: int| 0 <= i < b.len() && b[i] == ',';
            assert(s[s.len() - 3 + i] == ',');
        }
        commas_can_be_removed(a);
        lemma_no_commas(b);
        reveal_strlit(",");
        lemma_without_commas_append(grouped(a) + ","@, b);
        lemma_without_commas_append(grouped(a), ","@);
        assert(","@.drop_last() =~= Seq::empty());
        reveal_with_fuel(without_commas, 2);
        assert(without_commas(","@) =~= Seq::empty());
        assert(a + b =~= s);
        assert(without_commas(grouped(a)) + Seq::<char>::empty() =~= a);
    }
}

/// A count of some unit, where it is not zero.
pub open spec fn count_phrase(n: nat, unit: Seq<char>) -> Seq<Seq<char>> {
    if n == 0 {
        Seq::empty()
    } else {
        seq![
            text::decimal(n) + " "@ + unit + (if n > 1 {
                "s"@
            } else {
                ""@
            }),
        ]
    }
}

/// Texts with a space between them.
pub open spec fn spaced(parts: Seq<Seq<char>>) -> Seq<char>
    decreases parts.len(),
{
    if parts.len() == 0 {
        Seq::empty()
    } else if parts.len() == 1 {
        parts[0]
    } else {
        spaced(parts.drop_last()) + " "@ + parts.last()
    }
}

/// The days, hours, minutes and seconds of a span of time that are not zero.
pub open spec fn duration_parts(secs: nat) -> Seq<Seq<char>> {
    count_phrase(secs / 86400, "day"@) + count_phrase(secs % 86400 / 3600, "hour"@) + count_phrase(
        secs % 3600 / 60,
        "minute"@,
    ) + count_phrase(secs % 60, "second"@)
}

/// A span of time in words.
pub open spec fn duration_text(secs: nat) -> Seq<char> {
    if secs == 0 {
        "0 seconds"@
    } else {
        spaced(duration_parts(secs))
    }
}

fn push_count(
    out: &mut String,
    n: u64,
    unit: &str,
    Ghost(parts): Ghost<Seq<Seq<char>>>,
    is_first: bool,
)
    requires
        old(out)@ == spaced(parts),
        is_first == (parts.len() == 0),
    ensures
        final(out)@ == spaced(parts + count_phrase(n as nat, unit@)),
{
    let ghost phrase = count_phrase(n as nat, unit@);
    if n > 0 {
        if !is_first {
            out.append(" ");
        }
        push_decimal(out, n);
        out.append(" ");
        out.append(unit);
        if n > 1 {
            out.append("s");
        } else {
            out.append("");
        }
        proof {
            let all = parts + phrase;
            assert(all.drop_last() =~= parts);
            assert(all.last() == phrase[0]);
            assert(out@ =~= spaced(all));
        }
    } else {
        assert(parts + phrase =~= parts);
    }
}

/// Writes a span of time in words.
pub fn format_duration(secs: u64) -> (r: String)
    ensures
        r@ == duration_text(secs as nat),
{
    if secs == 0 {
        return "0 seconds".to_string();
    }
    let days: u64 = secs / 86400;
    let hours: u64 = (secs % 86400) / 3600;
    let minutes: u64 = (secs % 3600) / 60;
    let seconds: u64 = secs % 60;
    let mut out = "".to_string();
    proof {
        reveal_strlit("");
    }
    let ghost none = Seq::<Seq<char>>::empty();
    let ghost d = count_phrase(days as nat, "day"@);
    let ghost h = d + count_phrase(hours as nat, "hour"@);
    let ghost m = h + count_phrase(minutes as nat, "minute"@);
    assert(out@ =~= spaced(none));
    assert(none + d =~= d);
    push_count(&mut out, days, "day", Ghost(none), true);
    push_count(&mut out, hours, "hour", Ghost(d), days == 0);
    push_count(&mut out, minutes, "minute", Ghost(h), days == 0 && hours == 0);
    push_count(
        &mut out,
        seconds,
        "second",
        Ghost(m),
        days == 0 && hours == 0 && minutes == 0,
    );
    out
}

/// Law: the days, hours, minutes and seconds that are shown add up to the span of time.
pub proof fn duration_adds_up(secs: nat)
    ensures
        secs / 86400 * 86400 + secs % 86400 / 3600 * 3600 + secs % 3600 / 60 * 60 + secs % 60
            == secs,
        secs % 86400 / 3600 < 24,
        secs % 3600 / 60 < 60,
        secs % 60 < 60,
{
}

/// The text of the status window.
pub open spec fn status_window_text(
    s: stats::StatsView,
    secs: nat,
    memory_kb: nat,
    is_admin: bool,
) -> Seq<char> {
    "Listen Address: "@ + s.listen_addr + "\nRun Time: "@ + duration_text(secs)
        + "\nMemory Usage: "@ + grouped(text::decimal(memory_kb)) + " KB (Private Mapping)\n"@ + (
    if is_admin {
        "Privilege: Administrator\n"@
    } else {
        ""@
    }) + "\n- Direct Traffic -\nInbound: "@ + stats::size_text(s.direct_rx) + "\nOutbound: "@
        + stats::size_text(s.direct_tx) + "\n\n- Proxy Traffic -\nInbound: "@ + stats::size_text(
        s.upstream_rx,
    ) + "\nOutbound: "@ + stats::size_text(s.upstream_tx)
}

/// Writes the text of the status window.
pub fn stats_text(s: &TrafficStats, secs: u64, memory_kb: usize, is_admin: bool) -> (r: String)
    ensures
        r@ == status_window_text(s@, secs as nat, memory_kb as nat, is_admin),
{
    let mut out = "Listen Address: ".to_string();
    out.append(s.listen_addr.as_str());
    out.append("\nRun Time: ");
    out.append(format_duration(secs).as_str());
    out.append("\nMemory Usage: ");
    out.append(format_with_commas(memory_kb).as_str());
    out.append(" KB (Private Mapping)\n");
    if is_admin {
        out.append("Privilege: Administrator\n");
    } else {
        out.append("");
    }
    out.append("\n- Direct Traffic -\nInbound: ");
    out.append(TrafficStats::format_bytes(s.direct_rx).as_str());
    out.append("\nOutbound: ");
    out.append(TrafficStats::format_bytes(s.direct_tx).as_str());
    out.append("\n\n- Proxy Traffic -\nInbound: ");
    out.append(TrafficStats::format_bytes(s.upstream_rx).as_str());
    out.append("\nOutbound: ");
    out.append(TrafficStats::format_bytes(s.upstream_tx).as_str());
    out
}

/// The line that the log gets where there is no status window.
pub open spec fn status_line(s: stats::StatsView) -> Seq<char> {
    "Traffic Stats — Direct: "@ + stats::size_text(s.direct_rx) + "/"@ + stats::size_text(
        s.direct_tx,
    ) + " | Proxy: "@ + stats::size_text(s.upstream_rx) + "/"@ + stats::size_text(s.upstream_tx)
}

/// Writes the line that the log gets where there is no status window.
pub fn stats_line(s: &TrafficStats) -> (r: String)
    ensures
        r@ == status_line(s@),
{
    let mut out = "Traffic Stats — Direct: ".to_string();
    out.append(TrafficStats::format_bytes(s.direct_rx).as_str());
    out.append("/");
    out.append(TrafficStats::format_bytes(s.direct_tx).as_str());
    out.append(" | Proxy: ");
    out.append(TrafficStats::format_bytes(s.upstream_rx).as_str());
    out.append("/");
    out.append(TrafficStats::format_bytes(s.upstream_tx).as_str());
    out
}

// ---------------------------------------------------------------------------
// Start with the system
// ---------------------------------------------------------------------------

/// The text that units of sixteen bits denote, with a replacement for each ill-formed part.
pub uninterp spec fn utf16_text(units: Seq<u16>) -> Seq<char>;

/// `String::from_utf16_lossy` decodes units of sixteen bits: the text depends on the units alone,
/// and the units of a text decode to that text.
#[verifier::external_body]
pub(crate) fn decode_utf16(units: &[u16]) -> (r: String)
    ensures
        r@ == utf16_text(units@),
        forall|s: Seq<char>| #[trigger] utf16_of(s) == units@ ==> r@ == s,
{
    String::from_utf16_lossy(units)
}

/// The units of sixteen bits of a character: one, or two for a character beyond the first plane.
pub open spec fn utf16_units(c: char) -> Seq<u16> {
    let n = c as u32;
    if n < 0x10000 {
        seq![n as u16]
    } else {
        seq![
            (0xD800 + (n - 0x10000) / 0x400) as u16,
            (0xDC00 + (n - 0x10000) % 0x400) as u16,
        ]
    }
}

/// The units of sixteen bits of a text.
pub open spec fn utf16_of(s: Seq<char>) -> Seq<u16>
    decreases s.len(),
{
    if s.len() == 0 {
        Seq::empty()
    } else {
        utf16_of(s.drop_last()) + utf16_units(s.last())
    }
}

/// The low byte and then the high byte of each unit.
pub open spec fn little_endian(units: Seq<u16>) -> Seq<u8> {
    Seq::new(
        units.len() * 2,
        |i: int|
            if i % 2 == 0 {
                (units[i / 2] % 256) as u8
            } else {
                (units[i / 2] / 256) as u8
            },
    )
}

/// The text that units of sixteen bits decode to: the one whose units they are, where there is one.
pub open spec fn text_of_units(units: Seq<u16>) -> Seq<char> {
    if exists|s: Seq<char>| #[trigger] utf16_of(s) == units {
        choose|s: Seq<char>| #[trigger] utf16_of(s) == units
    } else {
        utf16_text(units)
    }
}

/// A text in units of sixteen bits, with a zero at the end.
pub fn wide_text(s: &str) -> (r: Vec<u16>)
    ensures
        r@ == utf16_of(s@).push(0),
{
    let chars = to_chars(s);
    let mut out: Vec<u16> = Vec::new();
    let mut i: usize = 0;
    while i < chars.len()
        invariant
            i <= chars@.len(),
            chars@ == s@,
            out@ == utf16_of(s@.take(i as int)),
        decreases chars@.len() - i,
    {
        let n: u32 = chars[i] as u32;
        let ghost before = out@;
        if n < 0x10000 {
            out.push(n as u16);
        } else {
            out.push((0xD800 + (n - 0x10000) / 0x400) as u16);
            out.push((0xDC00 + (n - 0x10000) % 0x400) as u16);
        }
        proof {
            assert(out@ =~= before + utf16_units(chars@[i as int]));
            assert(s@.take(i + 1).drop_last() =~= s@.take(i as int));
        }
        i = i + 1;
    }
    assert(s@.take(i as int) =~= s@);
    out.push(0);
    out
}

/// The bytes that the registry keeps of a text.
pub fn registry_value(s: &str) -> (r: Vec<u8>)
    ensures
        r@ == little_endian(utf16_of(s@).push(0)),
{
    let units = wide_text(s);
    let mut out: Vec<u8> = Vec::new();
    let mut i: usize = 0;
    while i < units.len()
        invariant
            i <= units@.len(),
            out@ == little_endian(units@.take(i as int)),
        decreases units@.len() - i,
    {
        out.push((units[i] % 256) as u8);
        out.push((units[i] / 256) as u8);
        assert(out@ =~= little_endian(units@.take(i + 1)));
        i = i + 1;
    }
    assert(units@.take(i as int) =~= units@);
    out
}

/// The path of the program in quotes. `long` and `len` are the buffer with its long form and the
/// length of that; a length of zero, or one that does not fit, says that there is no long form.
pub open spec fn quoted_path(path: Seq<char>, long: Seq<u16>, len: int) -> Seq<char> {
    "\""@ + (if 0 < len < long.len() {
        text_of_units(long.take(len))
    } else {
        path
    }) + "\""@
}

/// Writes the path of the program in quotes.
pub fn quoted_exe_path(path: &str, long: &Vec<u16>, len: u32) -> (r: String)
    ensures
        r@ == quoted_path(path@, long@, len as int),
{
    let mut out = "\"".to_string();
    if len > 0 && (len as usize) < long.len() {
        let units = vstd::slice::slice_subrange(long.as_slice(), 0, len as usize);
        assert(units@ =~= long@.take(len as int));
        out.append(decode_utf16(units).as_str());
    } else {
        out.append(path);
    }
    out.append("\"");
    out
}

/// The number of units in a registry value of so many bytes, without the zero at its end.
pub open spec fn value_units(bytes: int) -> int {
    if bytes / 2 >= 1 {
        bytes / 2 - 1
    } else {
        0
    }
}

/// Whether a path that is registered is the expected one, letter case aside.
pub open spec fn is_registered(buffer: Seq<u16>, bytes: int, expected: Seq<char>) -> bool {
    text::unicode_lower(text_of_units(buffer.take(value_units(bytes)))) == text::unicode_lower(
        expected,
    )
}

/// Whether the path in a registry value of so many bytes is the expected one. A value that holds
/// the units of a path stands for that path.
pub fn autostart_matches(buffer: &Vec<u16>, bytes: u32, expected: &str) -> (r: bool)
    requires
        value_units(bytes as int) <= buffer@.len(),
    ensures
        r == is_registered(buffer@, bytes as int, expected@),
        forall|s: Seq<char>| #[trigger]
            utf16_of(s) == buffer@.take(value_units(bytes as int)) ==> r == (text::unicode_lower(s)
                == text::unicode_lower(expected@)),
{
    let n: u32 = (bytes / 2).saturating_sub(1);
    let units = vstd::slice::slice_subrange(buffer.as_slice(), 0, n as usize);
    assert(units@ =~= buffer@.take(n as int));
    let actual = decode_utf16(units);
    same_chars(
        &to_chars(to_lower(actual.as_str()).as_str()),
        &to_chars(to_lower(expected).as_str()),
    )
}

/// The status by which the registry says that it did what it was asked.
pub const ERROR_SUCCESS: u32 = 0;

/// The kind of a registry value that is a text.
pub const REG_SZ: u32 = 1;

/// Whether the registry answered with a text that is the expected path, letter case aside.
pub open spec fn is_autostarted(
    status: u32,
    kind: u32,
    buffer: Seq<u16>,
    bytes: int,
    expected: Seq<char>,
) -> bool {
    status == ERROR_SUCCESS && kind == REG_SZ && is_registered(buffer, bytes, expected)
}

/// Whether the program at the expected path is started with the system, by what the registry
/// answered: its status, and the kind and the number of bytes of the value in the buffer.
pub fn check_autostart_status(
    status: u32,
    kind: u32,
    buffer: &Vec<u16>,
    bytes: u32,
    expected: &str,
) -> (r: bool)
    requires
        status == ERROR_SUCCESS && kind == REG_SZ ==> value_units(bytes as int) <= buffer@.len(),
    ensures
        r == is_autostarted(status, kind, buffer@, bytes as int, expected@),
{
    status == ERROR_SUCCESS && kind == REG_SZ && autostart_matches(buffer, bytes, expected)
}

/// What the registry is to keep so that a path is started with the system: nothing where it is
/// not.
pub open spec fn autostart_value(path: Seq<char>, enabled: bool) -> Option<Seq<u8>> {
    if enabled {
        Some(little_endian(utf16_of(path).push(0)))
    } else {
        None
    }
}

/// What the registry is to keep so that a path is started with the system, or no longer.
pub fn registry_change(path: &str, enabled: bool) -> (r: Option<Vec<u8>>)
    ensures
        (match r {
            Some(bytes) => Some(bytes@),
            None => None::<Seq<u8>>,
        }) == autostart_value(path@, enabled),
{
    if enabled {
        Some(registry_value(path))
    } else {
        None
    }
}

// ---------------------------------------------------------------------------
// Laws of the start with the system
// ---------------------------------------------------------------------------

proof fn lemma_char_units(c: char)
    ensures
        utf16_units(c).len() == 1 || utf16_units(c).len() == 2,
        utf16_units(c).len() == 1 ==> utf16_units(c)[0] == c as u32 && !(0xDC00
            <= utf16_units(c)[0] < 0xE000),
        utf16_units(c).len() == 2 ==> 0xDC00 <= utf16_units(c)[1] < 0xE000 && c as u32 == 0x10000
            + (utf16_units(c)[0] - 0xD800) * 0x400 + (utf16_units(c)[1] - 0xDC00),
{
}

proof fn lemma_same_units(c: char, d: char)
    requires
        utf16_units(c) == utf16_units(d),
    ensures
        c == d,
{
    lemma_char_units(c);
    lemma_char_units(d);
    assert(c as u32 == d as u32);
}

/// Law: two texts with the same units of sixteen bits are the same.
pub proof fn units_tell_texts_apart(a: Seq<char>, b: Seq<char>)
    requires
        utf16_of(a) == utf16_of(b),
    ensures
        a == b,
    decreases a.len(),
{
    if a.len() > 0 {
        lemma_char_units(a.last());
    }
    if b.len() > 0 {
        lemma_char_units(b.last());
    }
    if a.len() == 0 || b.len() == 0 {
        assert(b.len() > 0 ==> utf16_of(b).len() == utf16_of(b.drop_last()).len() + utf16_units(
            b.last(),
        ).len());
        assert(a.len() > 0 ==> utf16_of(a).len() == utf16_of(a.drop_last()).len() + utf16_units(
            a.last(),
        ).len());
        assert(a =~= b);
    } else {
        let a0 = a.drop_last();
        let b0 = b.drop_last();
        let ua = utf16_units(a.last());
        let ub = utf16_units(b.last());
        let all = utf16_of(a);
        assert(all.last() == ua.last());
        assert(all.last() == ub.last());
        assert(ua.len() == ub.len());
        let n = all.len() - ua.len();
        assert(all.skip(n) =~= ua);
        assert(all.skip(n) =~= ub);
        lemma_same_units(a.last(), b.last());
        assert(all.take(n) =~= utf16_of(a0));
        assert(all.take(n) =~= utf16_of(b0));
        units_tell_texts_apart(a0, b0);
        assert(a =~= a0.push(a.last()));
        assert(b =~= b0.push(b.last()));
    }
}

/// Law: the units of a text decode to that text.
pub proof fn units_of_a_text_decode(s: Seq<char>)
    ensures
        text_of_units(utf16_of(s)) == s,
{
    let t = choose|t: Seq<char>| #[trigger] utf16_of(t) == utf16_of(s);
    units_tell_texts_apart(t, s);
}

proof fn lemma_unit_bytes(units: Seq<u16>, i: int)
    requires
        0 <= i < units.len(),
    ensures
        units[i] == little_endian(units)[2 * i] + 256 * little_endian(units)[2 * i + 1],
{
    let j = 2 * i;
    assert(j / 2 == i && j % 2 == 0);
    assert((j + 1) / 2 == i && (j + 1) % 2 == 1);
    assert(little_endian(units)[j] == (units[i] % 256) as u8);
    assert(little_endian(units)[j + 1] == (units[i] / 256) as u8);
}

/// Law: two rows of units with the same bytes are the same.
pub proof fn bytes_tell_units_apart(a: Seq<u16>, b: Seq<u16>)
    requires
        little_endian(a) == little_endian(b),
    ensures
        a == b,
{
    assert(little_endian(a).len() == a.len() * 2);
    assert(little_endian(b).len() == b.len() * 2);
    assert forall|i: int| 0 <= i < a.len() implies a[i] == b[i] by {
        lemma_unit_bytes(a, i);
        lemma_unit_bytes(b, i);
    }
    assert(a =~= b);
}

/// Law: a value that was written for a path is recognised for every path that is the same, letter
/// case aside, and for no other.
pub proof fn written_path_is_recognised(
    buffer: Seq<u16>,
    bytes: int,
    path: Seq<char>,
    expected: Seq<char>,
)
    requires
        bytes == little_endian(utf16_of(path).push(0)).len(),
        bytes / 2 <= buffer.len(),
        little_endian(buffer.take(bytes / 2)) == little_endian(utf16_of(path).push(0)),
    ensures
        is_registered(buffer, bytes, expected) == (text::unicode_lower(expected)
            == text::unicode_lower(path)),
{
    let units = utf16_of(path).push(0);
    bytes_tell_units_apart(buffer.take(bytes / 2), units);
    assert(buffer.take(value_units(bytes)) =~= units.drop_last());
    assert(units.drop_last() =~= utf16_of(path));
    units_of_a_text_decode(path);
}

/// Whether this is how the registry answers, given what it keeps: a value that is there comes as a
/// text, at the front of the buffer.
pub open spec fn answers(
    kept: Option<Seq<u8>>,
    status: u32,
    kind: u32,
    buffer: Seq<u16>,
    bytes: int,
) -> bool {
    match kept {
        Some(value) => {
            &&& status == ERROR_SUCCESS
            &&& kind == REG_SZ
            &&& bytes == value.len()
            &&& bytes / 2 <= buffer.len()
            &&& little_endian(buffer.take(bytes / 2)) == value
        },
        None => status != ERROR_SUCCESS,
    }
}

/// Law: whether a path is started with the system reads back as it was set; and where it is, every
/// path that is the same, letter case aside, is said to be started, and no other.
pub proof fn autostart_reads_back(
    path: Seq<char>,
    enabled: bool,
    status: u32,
    kind: u32,
    buffer: Seq<u16>,
    bytes: int,
    expected: Seq<char>,
)
    requires
        answers(autostart_value(path, enabled), status, kind, buffer, bytes),
    ensures
        is_autostarted(status, kind, buffer, bytes, path) == enabled,
        is_autostarted(status, kind, buffer, bytes, expected) == (enabled && text::unicode_lower(
            expected,
        ) == text::unicode_lower(path)),
{
    if enabled {
        written_path_is_recognised(buffer, bytes, path, path);
        written_path_is_recognised(buffer, bytes, path, expected);
    }
}

// ---------------------------------------------------------------------------
// Laws of icons, menus and texts
// ---------------------------------------------------------------------------

/// Law: the icon has 32 rows of 32 pixels. A pixel whose row and column add up to an even number is
/// opaque, and green where there is activity, else gray; the others are wholly transparent.
pub proof fn icon_pixels_have_their_color(active: bool, x: int, y: int)
    requires
        0 <= x < 32,
        0 <= y < 32,
    ensures
        icon_pixels(active).len() == 4096,
        icon_pixels(active).subrange(y * 128 + x * 4, y * 128 + x * 4 + 4) == (if (x + y) % 2 == 1 {
            seq![0u8, 0u8, 0u8, 0u8]
        } else if active {
            seq![0u8, 255u8, 0u8, 255u8]
        } else {
            seq![100u8, 100u8, 100u8, 255u8]
        }),
{
    lemma_pixel(x, y);
    let k = y * 128 + x * 4;
    assert((k + 0) / 4 == y * 32 + x && (k + 0) % 4 == 0);
    assert((k + 1) / 4 == y * 32 + x && (k + 1) % 4 == 1);
    assert((k + 2) / 4 == y * 32 + x && (k + 2) % 4 == 2);
    assert((k + 3) / 4 == y * 32 + x && (k + 3) % 4 == 3);
    let shown = icon_pixels(active).subrange(k, k + 4);
    assert(shown =~= if (x + y) % 2 == 1 {
        seq![0u8, 0u8, 0u8, 0u8]
    } else if active {
        seq![0u8, 255u8, 0u8, 255u8]
    } else {
        seq![100u8, 100u8, 100u8, 255u8]
    });
}

/// Law: of each pixel the first and the third byte change places, and the others stay.
pub proof fn red_and_blue_change_places(rgba: Seq<u8>, pixel: int)
    requires
        0 <= pixel,
        pixel * 4 + 4 <= rgba.len(),
    ensures
        bgra_of(rgba).len() == rgba.len(),
        bgra_of(rgba).subrange(pixel * 4, pixel * 4 + 4) == seq![
            rgba[pixel * 4 + 2],
            rgba[pixel * 4 + 1],
            rgba[pixel * 4],
            rgba[pixel * 4 + 3],
        ],
{
    let k = pixel * 4;
    assert(k % 4 == 0 && (k + 1) % 4 == 1 && (k + 2) % 4 == 2 && (k + 3) % 4 == 3);
    assert(bgra_of(rgba).subrange(k, k + 4) =~= seq![
        rgba[k + 2],
        rgba[k + 1],
        rgba[k],
        rgba[k + 3],
    ]);
}

/// Law: each menu item has its own action, as long as their ids differ, and no other id has one.
pub proof fn menu_items_have_their_action(ids: MenuIds<Seq<char>>, id: Seq<char>)
    requires
        ids.quit != ids.autostart && ids.quit != ids.stats && ids.quit != ids.open_dir && ids.quit
            != ids.traffic,
        ids.autostart != ids.stats && ids.autostart != ids.open_dir && ids.autostart
            != ids.traffic,
        ids.stats != ids.open_dir && ids.stats != ids.traffic && ids.open_dir != ids.traffic,
    ensures
        action_of(ids, id) is Quit <==> id == ids.quit,
        action_of(ids, id) is ToggleAutostart <==> id == ids.autostart,
        action_of(ids, id) is ShowStats <==> id == ids.stats,
        action_of(ids, id) is OpenDirectory <==> id == ids.open_dir,
        action_of(ids, id) is ShowTraffic <==> id == ids.traffic,
{
}

/// Law: of the messages of the loop three are the application's own: to show an icon, to quit, and
/// to update the tooltip; every other one is handed on.
pub proof fn messages_have_their_meaning(message: u32, parameter: usize)
    ensures
        message_meaning(0x401, parameter) == MessageAction::SetIcon(parameter != 0),
        message_meaning(0x402, parameter) is Quit,
        message_meaning(0x403, parameter) is UpdateTooltip,
        message != 0x401 && message != 0x402 && message != 0x403 ==> message_meaning(
            message,
            parameter,
        ) is Dispatch,
        MSG_ICON == 0x401 && MSG_QUIT == 0x402 && MSG_TOOLTIP == 0x403,
        HOVER_THROTTLE_NANOS == 200_000_000,
        ACTIVITY_CHECK_INTERVAL_MILLIS == 500,
        FORCE_EXIT_TIMEOUT_SECS == 3,
{
}

/// Law: in a number with commas, counted from its end, every fourth character is a comma, and the
/// number neither starts with one nor has another.
pub proof fn commas_stand_every_three_digits(s: Seq<char>, k: int)
    requires
        !s.contains(','),
        0 <= k < grouped(s).len(),
    ensures
        grouped(s)[grouped(s).len() - 1 - k] == ',' <==> k % 4 == 3,
        s.len() > 0 ==> grouped(s)[0] != ',',
        s.len() == 0 ==> grouped(s).len() == 0,
    decreases s.len(),
{
    reveal_strlit(",");
    let g = grouped(s);
    if s.len() <= 3 {
        assert(s.contains(g[g.len() - 1 - k]));
        if s.len() > 0 {
            assert(s.contains(s[0]));
        }
    } else {
        let a = s.take(s.len() - 3);
        let b = s.skip(s.len() - 3);
        assert(!a.contains(',')) by {
            if a.contains(',') {
                let i = choose|i: int| 0 <= i < a.len() && a[i] == ',';
                assert(s[i] == ',');
            }
        }
        let ga = grouped(a);
        lemma_grouped_is_longer(a);
        assert(g =~= ga + seq![','] + b);
        commas_stand_every_three_digits(a, 0);
        assert(g[0] == ga[0]);
        if k < 3 {
            assert(g[g.len() - 1 - k] == s[s.len() - 1 - k]);
            assert(s.contains(s[s.len() - 1 - k]));
        } else if k == 3 {
            assert(g[g.len() - 4] == ',');
        } else {
            commas_stand_every_three_digits(a, k - 4);
            assert(g[g.len() - 1 - k] == ga[ga.len() - 1 - (k - 4)]);
        }
    }
}

proof fn lemma_grouped_is_longer(s: Seq<char>)
    ensures
        grouped(s).len() >= s.len(),
    decreases s.len(),
{
    if s.len() > 3 {
        lemma_grouped_is_longer(s.take(s.len() - 3));
    }
}

/// A count with its unit, in the plural from two on.
pub open spec fn counted_unit(n: nat, unit: Seq<char>) -> Seq<char> {
    if n == 1 {
        text::decimal(1) + " "@ + unit
    } else {
        text::decimal(n) + " "@ + unit + "s"@
    }
}

proof fn lemma_phrase(n: nat, unit: Seq<char>)
    requires
        n > 0,
    ensures
        count_phrase(n, unit) == seq![counted_unit(n, unit)],
{
    reveal_strlit("");
    if n == 1 {
        assert(text::decimal(n) + " "@ + unit + ""@ =~= counted_unit(n, unit));
    }
}

proof fn lemma_spaced_front(first: Seq<char>, rest: Seq<Seq<char>>)
    requires
        rest.len() > 0,
    ensures
        spaced(seq![first] + rest) == first + " "@ + spaced(rest),
    decreases rest.len(),
{
    let all = seq![first] + rest;
    assert(all.drop_last() =~= seq![first] + rest.drop_last());
    assert(all.last() == rest.last());
    if rest.len() == 1 {
        assert(all.drop_last() =~= seq![first]);
        assert(spaced(rest) == rest[0]);
        assert(spaced(seq![first]) == first);
        assert(spaced(all) == first + " "@ + rest[0]);
    } else {
        lemma_spaced_front(first, rest.drop_last());
        assert(spaced(all) =~= first + " "@ + spaced(rest));
    }
}

proof fn lemma_parts(d: nat, h: nat, m: nat, s: nat)
    requires
        h < 24,
        m < 60,
        s < 60,
    ensures
        duration_parts(d * 86400 + h * 3600 + m * 60 + s) == count_phrase(d, "day"@)
            + count_phrase(h, "hour"@) + count_phrase(m, "minute"@) + count_phrase(s, "second"@),
{
    let t = d * 86400 + h * 3600 + m * 60 + s;
    assert(t / 86400 == d);
    assert(t % 86400 == h * 3600 + m * 60 + s);
    assert(t % 86400 / 3600 == h);
    assert(t % 3600 == m * 60 + s);
    assert(t % 3600 / 60 == m);
    assert(t % 60 == s);
}

proof fn lemma_joined(n: nat, unit: Seq<char>, total: nat, rest: nat)
    requires
        n > 0,
        total > 0,
        rest > 0 ==> duration_parts(total) == count_phrase(n, unit) + duration_parts(rest),
        rest == 0 ==> duration_parts(total) == count_phrase(n, unit),
    ensures
        rest == 0 ==> duration_text(total) == counted_unit(n, unit),
        rest > 0 ==> duration_text(total) == counted_unit(n, unit) + " "@ + duration_text(rest),
{
    lemma_phrase(n, unit);
    if rest > 0 {
        duration_adds_up(rest);
        assert(rest / 86400 > 0 || rest % 86400 / 3600 > 0 || rest % 3600 / 60 > 0 || rest % 60
            > 0);
        assert(duration_parts(rest).len() > 0);
        lemma_spaced_front(counted_unit(n, unit), duration_parts(rest));
    }
}

/// Law: no time at all is 0 seconds, and less than a minute is told in seconds. From a minute on
/// the minutes come first, and then what is left, told as if it stood alone, where there is any.
pub proof fn minutes_are_told_first(n: nat, rest: nat)
    requires
        0 < n < 60,
        rest < 60,
    ensures
        duration_text(0) == "0 seconds"@,
        duration_text(n) == counted_unit(n, "second"@),
        rest == 0 ==> duration_text(n * 60) == counted_unit(n, "minute"@),
        rest > 0 ==> duration_text(n * 60 + rest) == counted_unit(n, "minute"@) + " "@
            + duration_text(rest),
{
    lemma_parts(0, 0, 0, n);
    lemma_parts(0, 0, n, rest);
    lemma_parts(0, 0, 0, rest);
    let none = Seq::<Seq<char>>::empty();
    assert(duration_parts(n) =~= count_phrase(n, "second"@));
    lemma_joined(n, "second"@, n, 0);
    let t = n * 60 + rest;
    assert(duration_parts(rest) =~= count_phrase(rest, "second"@));
    assert(duration_parts(t) =~= count_phrase(n, "minute"@) + count_phrase(rest, "second"@));
    if rest == 0 {
        assert(count_phrase(n, "minute"@) + none =~= count_phrase(n, "minute"@));
    }
    lemma_joined(n, "minute"@, t, rest);
}

/// Law: from an hour on the hours come first, and then what is left, told as if it stood alone,
/// where there is any.
pub proof fn hours_are_told_first(n: nat, rest: nat)
    requires
        0 < n < 24,
        rest < 3600,
    ensures
        rest == 0 ==> duration_text(n * 3600) == counted_unit(n, "hour"@),
        rest > 0 ==> duration_text(n * 3600 + rest) == counted_unit(n, "hour"@) + " "@
            + duration_text(rest),
{
    let m = rest / 60;
    let s = rest % 60;
    assert(rest == m * 60 + s);
    lemma_parts(0, n, m, s);
    lemma_parts(0, 0, m, s);
    let t = n * 3600 + rest;
    assert(duration_parts(rest) =~= count_phrase(m, "minute"@) + count_phrase(s, "second"@));
    assert(duration_parts(t) =~= count_phrase(n, "hour"@) + (count_phrase(m, "minute"@)
        + count_phrase(s, "second"@)));
    if rest == 0 {
        assert(duration_parts(t) =~= count_phrase(n, "hour"@));
    }
    lemma_joined(n, "hour"@, t, rest);
}

/// Law: from a day on the days come first, and then what is left, told as if it stood alone, where
/// there is any.
pub proof fn days_are_told_first(n: nat, rest: nat)
    requires
        0 < n,
        rest < 86400,
    ensures
        rest == 0 ==> duration_text(n * 86400) == counted_unit(n, "day"@),
        rest > 0 ==> duration_text(n * 86400 + rest) == counted_unit(n, "day"@) + " "@
            + duration_text(rest),
{
    let h = rest / 3600;
    let m = rest % 3600 / 60;
    let s = rest % 60;
    assert(rest == h * 3600 + m * 60 + s);
    lemma_parts(n, h, m, s);
    lemma_parts(0, h, m, s);
    let t = n * 86400 + rest;
    let tail = count_phrase(h, "hour"@) + count_phrase(m, "minute"@) + count_phrase(s, "second"@);
    assert(duration_parts(rest) =~= tail);
    assert(duration_parts(t) =~= count_phrase(n, "day"@) + tail);
    if rest == 0 {
        assert(duration_parts(t) =~= count_phrase(n, "day"@));
    }
    lemma_joined(n, "day"@, t, rest);
}

/// Law: the status window tells of the address, the time, the memory, and the traffic, direct and
/// through proxies, in and out; and of the privilege of an administrator just where there is one.
pub proof fn status_window_tells_all(s: stats::StatsView, secs: nat, memory_kb: nat)
    ensures
        ({
            let start = "Listen Address: "@ + s.listen_addr + "\nRun Time: "@ + duration_text(secs)
                + "\nMemory Usage: "@ + grouped(text::decimal(memory_kb))
                + " KB (Private Mapping)\n"@;
            let end = "\n- Direct Traffic -\nInbound: "@ + stats::size_text(s.direct_rx)
                + "\nOutbound: "@ + stats::size_text(s.direct_tx)
                + "\n\n- Proxy Traffic -\nInbound: "@ + stats::size_text(s.upstream_rx)
                + "\nOutbound: "@ + stats::size_text(s.upstream_tx);
            &&& status_window_text(s, secs, memory_kb, false) == start + end
            &&& status_window_text(s, secs, memory_kb, true) == start
                + "Privilege: Administrator\n"@ + end
        }),
        status_line(s) == "Traffic Stats — Direct: "@ + stats::size_text(s.direct_rx) + "/"@
            + stats::size_text(s.direct_tx) + " | Proxy: "@ + stats::size_text(s.upstream_rx)
            + "/"@ + stats::size_text(s.upstream_tx),
{
    reveal_strlit("");
    let start = "Listen Address: "@ + s.listen_addr + "\nRun Time: "@ + duration_text(secs)
        + "\nMemory Usage: "@ + grouped(text::decimal(memory_kb)) + " KB (Private Mapping)\n"@;
    let end = "\n- Direct Traffic -\nInbound: "@ + stats::size_text(s.direct_rx) + "\nOutbound: "@
        + stats::size_text(s.direct_tx) + "\n\n- Proxy Traffic -\nInbound: "@ + stats::size_text(
        s.upstream_rx,
    ) + "\nOutbound: "@ + stats::size_text(s.upstream_tx);
    assert(status_window_text(s, secs, memory_kb, false) =~= start + end);
    assert(status_window_text(s, secs, memory_kb, true) =~= start + "Privilege: Administrator\n"@
        + end);
}

/// Law: the path that is registered is in quotes: the long form where the buffer holds one that
/// fits, and else the path as it is.
pub proof fn registered_path_is_quoted(path: Seq<char>, long: Seq<u16>, name: Seq<char>)
    ensures
        utf16_of(name).len() > 0 && utf16_of(name).len() < long.len() && long.take(
            utf16_of(name).len() as int,
        ) == utf16_of(name) ==> quoted_path(path, long, utf16_of(name).len() as int) == seq!['"']
            + name + seq!['"'],
        quoted_path(path, long, 0) == seq!['"'] + path + seq!['"'],
        quoted_path(path, long, long.len() as int) == seq!['"'] + path + seq!['"'],
{
    reveal_strlit("\"");
    assert("\""@ =~= seq!['"']);
    units_of_a_text_decode(name);
}

/// Law: a character of the first plane is one unit, and any other one a pair: a high and a low
/// surrogate, ten bits each of what is beyond that plane. A value for the registry has the low byte
/// of each unit first, and a zero unit at its end.
pub proof fn units_are_utf16(c: char, s: Seq<char>)
    ensures
        (c as u32) < 0x10000 ==> utf16_units(c).len() == 1 && utf16_units(c)[0] == c as u32,
        c as u32 >= 0x10000 ==> utf16_units(c).len() == 2 && 0xD800 <= utf16_units(c)[0] < 0xDC00
            && 0xDC00 <= utf16_units(c)[1] < 0xE000 && (utf16_units(c)[0] - 0xD800) * 1024 + (
        utf16_units(c)[1] - 0xDC00) + 0x10000 == c as u32,
        utf16_of(s.push(c)) == utf16_of(s) + utf16_units(c),
        utf16_of(Seq::empty()) == Seq::<u16>::empty(),
        ({
            let value = little_endian(utf16_of(s).push(0));
            value.len() == 2 * utf16_of(s).len() + 2 && value[value.len() - 1] == 0
                && value[value.len() - 2] == 0
        }),
{
    lemma_char_units(c);
    assert(s.push(c).drop_last() =~= s);
    let units = utf16_of(s).push(0);
    let n = utf16_of(s).len() as int;
    lemma_unit_bytes(units, n);
    assert(units[n] == 0);
}

/// Law: the icon changes just where what it shows is not what there was, and then to that; the
/// tooltip is updated just where more than a fifth of a second has passed since the last time.
pub proof fn icon_and_tooltip_follow(active: bool, traffic: bool, last_update: u128, now: u128)
    ensures
        icon_change(active, traffic) is Some <==> active != traffic,
        icon_change(active, traffic) matches Some(shown) ==> shown == traffic,
        hover_is_due(last_update, now) <==> now > last_update + 200_000_000,
{
}

/// Law: the application goes by one name.
pub proof fn application_goes_by_its_name()
    ensures
        name_of_app() == "Simple Forwarder"@,
{
}

} // verus!
