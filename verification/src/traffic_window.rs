//! The table of connections that the traffic window shows.

use crate::connection_tracker;
use crate::connection_tracker::ConnectionInfo;
use crate::stats;
use crate::stats::TrafficStats;
use crate::text::{same_chars, to_chars};
use std::collections::{HashMap, HashSet};
use std::sync::atomic::Ordering;
use vstd::prelude::*;
use vstd::string::*;

verus! {

/// How many rows are highlighted in a column.
pub const TOP_N: usize = 5;

/// A row is highlighted from more than so many bytes on.
pub const HIGHLIGHT_MIN_BYTES: u64 = 0xA0_0000;

/// The number of columns, with the two that hold colors.
pub const COLUMN_COUNT: i32 = 11;

pub const COL_BYTES_SENT: i32 = 7;

pub const COL_BYTES_RECV: i32 = 8;

pub const COL_COLOR_SENT: i32 = 9;

pub const COL_COLOR_RECV: i32 = 10;

// ---------------------------------------------------------------------------
// Rows
// ---------------------------------------------------------------------------

/// A row of the table.
#[derive(Debug)]
pub struct TrafficRow {
    pub id: u64,
    pub source_ip: String,
    pub outbound_target: String,
    pub exe_name: String,
    pub proxy_protocol: String,
    pub proxy: String,
    pub start_time: String,
    pub status: String,
    pub bytes_sent: u64,
    pub bytes_received: u64,
}

/// What a row shows.
#[verifier::ext_equal]
pub ghost struct RowView {
    pub id: u64,
    pub source_ip: Seq<char>,
    pub outbound_target: Seq<char>,
    pub exe_name: Seq<char>,
    pub proxy_protocol: Seq<char>,
    pub proxy: Seq<char>,
    pub start_time: Seq<char>,
    pub status: Seq<char>,
    pub bytes_sent: u64,
    pub bytes_received: u64,
}

impl View for TrafficRow {
    type V = RowView;

    open spec fn view(&self) -> RowView {
        RowView {
            id: self.id,
            source_ip: self.source_ip@,
            outbound_target: self.outbound_target@,
            exe_name: self.exe_name@,
            proxy_protocol: self.proxy_protocol@,
            proxy: self.proxy@,
            start_time: self.start_time@,
            status: self.status@,
            bytes_sent: self.bytes_sent,
            bytes_received: self.bytes_received,
        }
    }
}

/// The row of a connection whose counters read so many bytes.
pub open spec fn row_of(
    e: connection_tracker::InfoView,
    bytes_sent: u64,
    bytes_received: u64,
) -> RowView {
    RowView {
        id: e.id,
        source_ip: e.source_ip,
        outbound_target: e.outbound_target,
        exe_name: e.exe_name,
        proxy_protocol: e.proxy_protocol,
        proxy: e.proxy,
        start_time: e.start_time,
        status: connection_tracker::status_text(e.status),
        bytes_sent,
        bytes_received,
    }
}

fn same_text(a: &String, b: &String) -> (r: bool)
    ensures
        r == (a@ == b@),
{
    same_chars(&to_chars(a.as_str()), &to_chars(b.as_str()))
}

impl TrafficRow {
    /// The row of a connection whose counters read so many bytes.
    pub fn with_counts(info: &ConnectionInfo, bytes_sent: u64, bytes_received: u64) -> (r:
        TrafficRow)
        ensures
            r@ == row_of(info@, bytes_sent, bytes_received),
    {
        TrafficRow {
            id: info.id,
            source_ip: info.source_ip.clone(),
            outbound_target: info.outbound_target.clone(),
            exe_name: info.exe_name.clone(),
            proxy_protocol: info.proxy_protocol.clone(),
            proxy: info.proxy.clone(),
            start_time: info.start_time.clone(),
            status: info.status.text(),
            bytes_sent,
            bytes_received,
        }
    }

    /// The row of a connection as its counters read now.
    pub fn of(info: &ConnectionInfo) -> (r: TrafficRow)
        ensures
            exists|sent: u64, received: u64| r@ == #[trigger] row_of(info@, sent, received),
    {
        let sent: u64 = info.bytes_sent.load(Ordering::Relaxed);
        let received: u64 = info.bytes_received.load(Ordering::Relaxed);
        TrafficRow::with_counts(info, sent, received)
    }

    /// Whether two rows show the same.
    pub fn same(&self, other: &TrafficRow) -> (r: bool)
        ensures
            r == (self@ == other@),
    {
        self.id == other.id && same_text(&self.source_ip, &other.source_ip) && same_text(
            &self.outbound_target,
            &other.outbound_target,
        ) && same_text(&self.exe_name, &other.exe_name) && same_text(
            &self.proxy_protocol,
            &other.proxy_protocol,
        ) && same_text(&self.proxy, &other.proxy) && same_text(&self.start_time, &other.start_time)
            && same_text(&self.status, &other.status) && self.bytes_sent == other.bytes_sent
            && self.bytes_received == other.bytes_received
    }
}

/// The ids of rows.
pub open spec fn ids_of(rows: Seq<RowView>) -> Seq<u64> {
    rows.map_values(|r: RowView| r.id)
}

/// The bytes that the connections of rows sent.
pub open spec fn sent_of(rows: Seq<RowView>) -> Seq<u64> {
    rows.map_values(|r: RowView| r.bytes_sent)
}

/// The bytes that the connections of rows received.
pub open spec fn received_of(rows: Seq<RowView>) -> Seq<u64> {
    rows.map_values(|r: RowView| r.bytes_received)
}

/// What rows show.
pub open spec fn row_views(rows: Seq<TrafficRow>) -> Seq<RowView> {
    rows.map_values(|r: TrafficRow| r@)
}

// ---------------------------------------------------------------------------
// Highlights
// ---------------------------------------------------------------------------

/// Whether row `i` ranks before row `j`: it has more bytes, or as many and stands above it.
pub open spec fn beats(counts: Seq<u64>, i: int, j: int) -> bool {
    counts[i] > counts[j] || (counts[i] == counts[j] && i < j)
}

/// Whether `p` are the rows that are highlighted, the best first: those with enough bytes, or the
/// best of them where there are too many.
pub open spec fn is_podium(counts: Seq<u64>, p: Seq<int>) -> bool {
    &&& p.len() <= TOP_N
    &&& forall|k: int|
        0 <= k < p.len() ==> 0 <= #[trigger] p[k] < counts.len() && counts[p[k]]
            > HIGHLIGHT_MIN_BYTES
    &&& forall|a: int, b: int|
        0 <= a < b < p.len() ==> beats(counts, #[trigger] p[a], #[trigger] p[b])
    &&& forall|i: int|
        0 <= i < counts.len() && #[trigger] counts[i] > HIGHLIGHT_MIN_BYTES && !p.contains(i)
            ==> p.len() == TOP_N && forall|k: int|
            0 <= k < p.len() ==> beats(counts, #[trigger] p[k], i)
}

/// The ids of the rows `p`.
pub open spec fn picked_ids(ids: Seq<u64>, p: Seq<int>) -> Set<u64> {
    p.map_values(|i: int| ids[i]).to_set()
}

/// Whether `top` are the ids of the rows to highlight.
pub open spec fn is_highlight(top: Set<u64>, ids: Seq<u64>, counts: Seq<u64>) -> bool {
    exists|p: Seq<int>| #[trigger] is_podium(counts, p) && top == picked_ids(ids, p)
}

fn podium(counts: &Vec<u64>) -> (r: Vec<usize>)
    ensures
        is_podium(counts@, r@.map_values(|i: usize| i as int)),
{
    let mut p: Vec<usize> = Vec::new();
    let mut i: usize = 0;
    let ghost picks = Seq::<int>::empty();
    while i < counts.len()
        invariant
            i <= counts@.len(),
            p@.len() <= TOP_N,
            picks == p@.map_values(|i: usize| i as int),
            is_podium(counts@.take(i as int), picks),
        decreases counts@.len() - i,
    {
        let n: u64 = counts[i];
        let ghost seen = counts@.take(i as int);
        let ghost next = counts@.take(i + 1);
        let ghost before = picks;
        proof {
            assert(forall|j: int| 0 <= j < i ==> seen[j] == next[j]);
            assert(next[i as int] == n);
            assert(!before.contains(i as int));
        }
        if n > HIGHLIGHT_MIN_BYTES {
            let mut k: usize = 0;
            while k < p.len() && n <= counts[p[k]]
                invariant
                    i < counts@.len(),
                    n == counts@[i as int],
                    k <= p@.len() <= TOP_N,
                    picks == p@.map_values(|i: usize| i as int),
                    is_podium(counts@.take(i as int), picks),
                    forall|a: int| 0 <= a < k ==> n <= counts@[#[trigger] picks[a]],
                    forall|a: int| 0 <= a < p@.len() ==> #[trigger] p@[a] == picks[a],
                decreases p@.len() - k,
            {
                assert(picks[k as int] == p@[k as int]);
                k = k + 1;
            }
            if k < TOP_N {
                p.insert(k, i);
                let ghost full = before.insert(k as int, i as int);
                proof {
                    assert(p@.map_values(|i: usize| i as int) =~= full);
                    lemma_podium_insert(counts@, i as int, before, k as int);
                }
                if p.len() > TOP_N {
                    let _ = p.pop();
                    assert(p@.map_values(|i: usize| i as int) =~= full.drop_last());
                    proof {
                        picks = full.drop_last();
                    }
                } else {
                    proof {
                        picks = full;
                    }
                }
            } else {
                proof {
                    lemma_podium_full(counts@, i as int, before);
                }
            }
        } else {
            proof {
                lemma_podium_skip(counts@, i as int, before);
            }
        }
        i = i + 1;
    }
    assert(counts@.take(i as int) =~= counts@);
    p
}

proof fn lemma_podium_skip(counts: Seq<u64>, i: int, p: Seq<int>)
    requires
        0 <= i < counts.len(),
        is_podium(counts.take(i), p),
        counts[i] <= HIGHLIGHT_MIN_BYTES,
    ensures
        is_podium(counts.take(i + 1), p),
{
    let seen = counts.take(i);
    let next = counts.take(i + 1);
    assert(forall|j: int| 0 <= j < i ==> seen[j] == next[j]);
    assert forall|j: int|
        0 <= j < next.len() && #[trigger] next[j] > HIGHLIGHT_MIN_BYTES && !p.contains(
            j,
        ) implies p.len() == TOP_N && forall|k: int|
        0 <= k < p.len() ==> beats(next, #[trigger] p[k], j) by {
        assert(seen[j] > HIGHLIGHT_MIN_BYTES);
        assert forall|k: int| 0 <= k < p.len() implies beats(next, #[trigger] p[k], j) by {
            assert(beats(seen, p[k], j));
        }
    }
    assert forall|a: int, b: int| 0 <= a < b < p.len() implies beats(
        next,
        #[trigger] p[a],
        #[trigger] p[b],
    ) by {
        assert(beats(seen, p[a], p[b]));
    }
}

proof fn lemma_podium_full(counts: Seq<u64>, i: int, p: Seq<int>)
    requires
        0 <= i < counts.len(),
        is_podium(counts.take(i), p),
        p.len() == TOP_N,
        forall|a: int| 0 <= a < p.len() ==> counts[i] <= counts[#[trigger] p[a]],
    ensures
        is_podium(counts.take(i + 1), p),
{
    let seen = counts.take(i);
    let next = counts.take(i + 1);
    assert(forall|j: int| 0 <= j < i ==> seen[j] == next[j]);
    assert forall|j: int|
        0 <= j < next.len() && #[trigger] next[j] > HIGHLIGHT_MIN_BYTES && !p.contains(
            j,
        ) implies p.len() == TOP_N && forall|k: int|
        0 <= k < p.len() ==> beats(next, #[trigger] p[k], j) by {
        assert forall|k: int| 0 <= k < p.len() implies beats(next, #[trigger] p[k], j) by {
            if j < i {
                assert(seen[j] > HIGHLIGHT_MIN_BYTES);
                assert(beats(seen, p[k], j));
            }
        }
    }
    assert forall|a: int, b: int| 0 <= a < b < p.len() implies beats(
        next,
        #[trigger] p[a],
        #[trigger] p[b],
    ) by {
        assert(beats(seen, p[a], p[b]));
    }
}

proof fn lemma_podium_insert(counts: Seq<u64>, i: int, p: Seq<int>, k: int)
    requires
        0 <= i < counts.len(),
        is_podium(counts.take(i), p),
        counts[i] > HIGHLIGHT_MIN_BYTES,
        0 <= k <= p.len(),
        k < TOP_N,
        forall|a: int| 0 <= a < k ==> counts[i] <= counts[#[trigger] p[a]],
        k < p.len() ==> counts[i] > counts[p[k]],
    ensures
        p.len() < TOP_N ==> is_podium(counts.take(i + 1), p.insert(k, i)),
        p.len() == TOP_N ==> is_podium(counts.take(i + 1), p.insert(k, i).drop_last()),
{
    let seen = counts.take(i);
    let next = counts.take(i + 1);
    assert(forall|j: int| 0 <= j < i ==> seen[j] == next[j]);
    let full = p.insert(k, i);
    let q = if p.len() < TOP_N {
        full
    } else {
        full.drop_last()
    };
    assert forall|a: int, b: int| 0 <= a < b < full.len() implies beats(
        next,
        #[trigger] full[a],
        #[trigger] full[b],
    ) by {
        let a0 = if a < k {
            a
        } else {
            a - 1
        };
        let b0 = if b < k {
            b
        } else {
            b - 1
        };
        if a == k {
            if b0 > k {
                assert(beats(seen, p[k], p[b0]));
            }
        } else if b != k {
            assert(beats(seen, p[a0], p[b0]));
        }
    }
    assert forall|a: int| 0 <= a < q.len() implies 0 <= #[trigger] q[a] < next.len() && next[q[a]]
        > HIGHLIGHT_MIN_BYTES by {
        if a < k {
            assert(q[a] == p[a]);
        } else if a > k {
            assert(q[a] == p[a - 1]);
        }
    }
    assert forall|a: int, b: int| 0 <= a < b < q.len() implies beats(
        next,
        #[trigger] q[a],
        #[trigger] q[b],
    ) by {
        assert(q[a] == full[a] && q[b] == full[b]);
    }
    assert forall|j: int|
        0 <= j < next.len() && #[trigger] next[j] > HIGHLIGHT_MIN_BYTES && !q.contains(
            j,
        ) implies q.len() == TOP_N && forall|a: int|
        0 <= a < q.len() ==> beats(next, #[trigger] q[a], j) by {
        assert(q[k] == i);
        assert(j < i);
        assert(seen[j] > HIGHLIGHT_MIN_BYTES);
        if p.contains(j) {
            let m = choose|m: int| 0 <= m < p.len() && p[m] == j;
            let m1 = if m < k {
                m
            } else {
                m + 1
            };
            assert(full[m1] == j);
            if m1 < q.len() {
                assert(q[m1] == j);
            }
            assert forall|a: int| 0 <= a < q.len() implies beats(next, #[trigger] q[a], j) by {
                assert(q[a] == full[a]);
                assert(beats(next, full[a], full[m1]));
            }
        } else {
            assert(p.len() == TOP_N);
            assert forall|a: int| 0 <= a < q.len() implies beats(next, #[trigger] q[a], j) by {
                if a < k {
                    assert(q[a] == p[a]);
                    assert(beats(seen, p[a], j));
                } else if a == k {
                    assert(beats(seen, p[k], j));
                } else {
                    assert(q[a] == p[a - 1]);
                    assert(beats(seen, p[a - 1], j));
                }
            }
        }
    }
}

/// Law: the highlighted rows are determined by the counters.
pub proof fn podium_is_unique(counts: Seq<u64>, p: Seq<int>, q: Seq<int>)
    requires
        is_podium(counts, p),
        is_podium(counts, q),
    ensures
        p == q,
{
    lemma_podium_prefix(counts, p, q, if p.len() <= q.len() { p.len() as int } else { q.len() as int });
    if p.len() < q.len() {
        let i = q[p.len() as int];
        assert(counts[i] > HIGHLIGHT_MIN_BYTES);
        assert(p.contains(i));
        let m = choose|m: int| 0 <= m < p.len() && p[m] == i;
        assert(beats(counts, q[m], q[p.len() as int]));
    } else if q.len() < p.len() {
        let i = p[q.len() as int];
        assert(counts[i] > HIGHLIGHT_MIN_BYTES);
        assert(q.contains(i));
        let m = choose|m: int| 0 <= m < q.len() && q[m] == i;
        assert(beats(counts, p[m], p[q.len() as int]));
    }
    assert(p =~= q);
}

proof fn lemma_podium_prefix(counts: Seq<u64>, p: Seq<int>, q: Seq<int>, n: int)
    requires
        is_podium(counts, p),
        is_podium(counts, q),
        0 <= n <= p.len(),
        n <= q.len(),
    ensures
        forall|k: int| 0 <= k < n ==> p[k] == q[k],
    decreases n,
{
    if n > 0 {
        lemma_podium_prefix(counts, p, q, n - 1);
        let a = p[n - 1];
        let b = q[n - 1];
        if a != b {
            lemma_podium_leader(counts, p, q, n - 1);
            lemma_podium_leader(counts, q, p, n - 1);
        }
    }
}

proof fn lemma_podium_leader(counts: Seq<u64>, p: Seq<int>, q: Seq<int>, n: int)
    requires
        is_podium(counts, p),
        is_podium(counts, q),
        0 <= n < p.len(),
        n < q.len(),
        forall|k: int| 0 <= k < n ==> p[k] == q[k],
        p[n] != q[n],
    ensures
        beats(counts, p[n], q[n]),
{
    let b = q[n];
    assert(counts[b] > HIGHLIGHT_MIN_BYTES);
    if p.contains(b) {
        let m = choose|m: int| 0 <= m < p.len() && p[m] == b;
        if m < n {
            assert(beats(counts, q[m], q[n]));
        } else {
            assert(beats(counts, p[n], p[m]));
        }
    } else {
        assert(beats(counts, p[n], b));
    }
}

// ---------------------------------------------------------------------------
// The table
// ---------------------------------------------------------------------------

/// What the table shows: its rows, and the ids of those that are highlighted.
#[verifier::ext_equal]
pub ghost struct TableView {
    pub rows: Seq<RowView>,
    pub top_sent: Set<u64>,
    pub top_recv: Set<u64>,
}

/// Whether the highlights of a table are those of its rows.
pub open spec fn is_current(t: TableView) -> bool {
    &&& is_highlight(t.top_sent, ids_of(t.rows), sent_of(t.rows))
    &&& is_highlight(t.top_recv, ids_of(t.rows), received_of(t.rows))
}

/// The rows of the table and which of them are highlighted.
#[derive(Debug)]
pub struct TrafficDataSource {
    connections: Vec<TrafficRow>,
    top_sent: HashSet<u64>,
    top_recv: HashSet<u64>,
}

impl View for TrafficDataSource {
    type V = TableView;

    closed spec fn view(&self) -> TableView {
        TableView {
            rows: row_views(self.connections@),
            top_sent: self.top_sent@,
            top_recv: self.top_recv@,
        }
    }
}

/// A table with new rows and its highlights as they were.
pub open spec fn absorbed(t: TableView, rows: Seq<RowView>) -> TableView {
    TableView { rows, ..t }
}

/// What a column holds.
#[derive(Clone, Copy, Debug, PartialEq, Eq, Structural)]
pub enum ColumnKind {
    Text,
    Color,
}

/// What a cell holds.
#[derive(Debug)]
pub enum Cell<T> {
    Text(T),
    /// The color of highlighted text.
    Highlight,
    /// The color of other text.
    Plain,
}

impl View for Cell<String> {
    type V = Cell<Seq<char>>;

    open spec fn view(&self) -> Cell<Seq<char>> {
        match self {
            Cell::Text(text) => Cell::Text(text@),
            Cell::Highlight => Cell::Highlight,
            Cell::Plain => Cell::Plain,
        }
    }
}

/// What a column holds.
pub open spec fn kind_of_column(column: i32) -> ColumnKind {
    if column == COL_COLOR_SENT || column == COL_COLOR_RECV {
        ColumnKind::Color
    } else {
        ColumnKind::Text
    }
}

/// A color for highlighted text or for other text.
pub open spec fn color_of(highlighted: bool) -> Cell<Seq<char>> {
    if highlighted {
        Cell::Highlight
    } else {
        Cell::Plain
    }
}

/// What a cell holds; one outside the table is empty.
pub open spec fn cell_of(t: TableView, column: i32, row: i32) -> Cell<Seq<char>> {
    if !(0 <= row < t.rows.len()) {
        match kind_of_column(column) {
            ColumnKind::Color => Cell::Plain,
            ColumnKind::Text => Cell::Text(""@),
        }
    } else {
        let r = t.rows[row as int];
        if column == 0 {
            Cell::Text(r.source_ip)
        } else if column == 1 {
            Cell::Text(r.outbound_target)
        } else if column == 2 {
            Cell::Text(r.exe_name)
        } else if column == 3 {
            Cell::Text(r.proxy_protocol)
        } else if column == 4 {
            Cell::Text(r.proxy)
        } else if column == 5 {
            Cell::Text(r.start_time)
        } else if column == 6 {
            Cell::Text(r.status)
        } else if column == COL_BYTES_SENT {
            Cell::Text(stats::size_text(r.bytes_sent))
        } else if column == COL_BYTES_RECV {
            Cell::Text(stats::size_text(r.bytes_received))
        } else if column == COL_COLOR_SENT {
            color_of(t.top_sent.contains(r.id))
        } else if column == COL_COLOR_RECV {
            color_of(t.top_recv.contains(r.id))
        } else {
            Cell::Text(""@)
        }
    }
}

fn color(highlighted: bool) -> (r: Cell<String>)
    ensures
        r@ == color_of(highlighted),
{
    if highlighted {
        Cell::Highlight
    } else {
        Cell::Plain
    }
}

/// The ids of the rows that lead in a column of counters.
fn leaders(rows: &Vec<TrafficRow>, counts: &Vec<u64>) -> (r: HashSet<u64>)
    requires
        rows@.len() == counts@.len(),
    ensures
        is_highlight(r@, ids_of(row_views(rows@)), counts@),
{
    broadcast use vstd::std_specs::hash::group_hash_axioms;

    let p = podium(counts);
    let ghost picks = p@.map_values(|i: usize| i as int);
    let ghost ids = ids_of(row_views(rows@));
    let ghost picked = picks.map_values(|i: int| ids[i]);
    let mut out: HashSet<u64> = HashSet::new();
    let mut k: usize = 0;
    assert(picked.take(0).to_set() =~= Set::empty());
    while k < p.len()
        invariant
            k <= p@.len(),
            rows@.len() == counts@.len(),
            picks == p@.map_values(|i: usize| i as int),
            ids == ids_of(row_views(rows@)),
            picked == picks.map_values(|i: int| ids[i]),
            is_podium(counts@, picks),
            out@ == picked.take(k as int).to_set(),
        decreases p@.len() - k,
    {
        assert(picks[k as int] == p@[k as int]);
        let id: u64 = rows[p[k]].id;
        assert(picked[k as int] == id);
        out.insert(id);
        proof {
            let shorter = picked.take(k as int);
            assert(picked.take(k + 1) =~= shorter.push(id));
            assert forall|x: u64| shorter.push(id).to_set().contains(x)
                <==> shorter.to_set().insert(id).contains(x) by {
                vstd::seq_lib::lemma_seq_contains_after_push(shorter, id, x);
            }
            assert(out@ =~= picked.take(k + 1).to_set());
        }
        k = k + 1;
    }
    assert(picked.take(k as int) =~= picked);
    assert(out@ == picked_ids(ids, picks));
    out
}

/// Which rows of a table changed: those that went, by their old places from the last to the
/// first; those that came, by their new places; and those that look different, by their new
/// places.
#[derive(Debug)]
pub struct RowDiff {
    pub deleted: Vec<usize>,
    pub inserted: Vec<usize>,
    pub changed: Vec<usize>,
}

/// The places below `n` for which `pred` holds, in rising order.
pub open spec fn places(n: nat, pred: spec_fn(int) -> bool) -> Seq<usize>
    decreases n,
{
    if n == 0 {
        Seq::empty()
    } else if pred(n - 1) {
        places((n - 1) as nat, pred).push((n - 1) as usize)
    } else {
        places((n - 1) as nat, pred)
    }
}

/// The places below `n` for which `pred` holds, in falling order.
pub open spec fn places_down(n: nat, pred: spec_fn(int) -> bool) -> Seq<usize>
    decreases n,
{
    if n == 0 {
        Seq::empty()
    } else if pred(n - 1) {
        seq![(n - 1) as usize] + places_down((n - 1) as nat, pred)
    } else {
        places_down((n - 1) as nat, pred)
    }
}

/// The rows of `old` that are gone in `new`.
pub open spec fn deleted_places(old: Seq<u64>, new: Seq<u64>) -> Seq<usize> {
    places_down(old.len(), |i: int| !new.contains(old[i]))
}

/// The rows of `new` that were not in `old`.
pub open spec fn inserted_places(old: Seq<u64>, new: Seq<u64>) -> Seq<usize> {
    places(new.len(), |i: int| !old.contains(new[i]))
}

/// The last place of an id.
pub open spec fn place_of(ids: Seq<u64>, id: u64) -> Option<int>
    decreases ids.len(),
{
    if ids.len() == 0 {
        None
    } else if ids.last() == id {
        Some(ids.len() - 1)
    } else {
        place_of(ids.drop_last(), id)
    }
}

/// Whether row `i` of `new` was in `old` and looks different now: it shows something else, or
/// its highlight came or went.
pub open spec fn looks_different(old: TableView, new: TableView, i: int) -> bool {
    let id = new.rows[i].id;
    match place_of(ids_of(old.rows), id) {
        None => false,
        Some(j) => old.rows[j] != new.rows[i] || old.top_sent.contains(id)
            != new.top_sent.contains(id) || old.top_recv.contains(id) != new.top_recv.contains(id),
    }
}

/// The rows of `new` that were in `old` and look different.
pub open spec fn changed_places(old: TableView, new: TableView) -> Seq<usize> {
    places(new.rows.len(), |i: int| looks_different(old, new, i))
}

proof fn lemma_place_of(ids: Seq<u64>, id: u64)
    ensures
        match place_of(ids, id) {
            Some(i) => 0 <= i < ids.len() && ids[i] == id,
            None => !ids.contains(id),
        },
    decreases ids.len(),
{
    if ids.len() > 0 && ids.last() != id {
        lemma_place_of(ids.drop_last(), id);
        if place_of(ids.drop_last(), id) is None && ids.contains(id) {
            let i = choose|i: int| 0 <= i < ids.len() && ids[i] == id;
            assert(ids.drop_last()[i] == id);
        }
    }
}

/// Where each id stands.
fn index_rows(rows: &Vec<TrafficRow>) -> (r: HashMap<u64, usize>)
    ensures
        forall|id: u64| #[trigger]
            r@.contains_key(id) <==> place_of(ids_of(row_views(rows@)), id) is Some,
        forall|id: u64| #[trigger]
            r@.contains_key(id) ==> place_of(ids_of(row_views(rows@)), id) == Some(r@[id] as int),
{
    broadcast use vstd::std_specs::hash::group_hash_axioms;

    let mut out: HashMap<u64, usize> = HashMap::new();
    let mut i: usize = 0;
    let ghost ids = ids_of(row_views(rows@));
    assert(ids.take(0) =~= Seq::empty());
    while i < rows.len()
        invariant
            i <= rows@.len(),
            ids == ids_of(row_views(rows@)),
            forall|id: u64| #[trigger]
                out@.contains_key(id) <==> place_of(ids.take(i as int), id) is Some,
            forall|id: u64| #[trigger]
                out@.contains_key(id) ==> place_of(ids.take(i as int), id) == Some(out@[id] as int),
        decreases rows@.len() - i,
    {
        out.insert(rows[i].id, i);
        proof {
            assert(ids.take(i + 1).drop_last() =~= ids.take(i as int));
            assert(ids.take(i + 1).last() == rows@[i as int].id);
        }
        i = i + 1;
    }
    assert(ids.take(i as int) =~= ids);
    out
}

fn deleted_rows(
    old: &Vec<TrafficRow>,
    new_index: &HashMap<u64, usize>,
    Ghost(new_ids): Ghost<Seq<u64>>,
) -> (r: Vec<usize>)
    requires
        forall|id: u64| #[trigger] new_index@.contains_key(id) <==> new_ids.contains(id),
    ensures
        r@ == deleted_places(ids_of(row_views(old@)), new_ids),
{
    broadcast use vstd::std_specs::hash::group_hash_axioms;

    let ghost ids = ids_of(row_views(old@));
    let ghost pred = |i: int| !new_ids.contains(ids[i]);
    let mut out: Vec<usize> = Vec::new();
    let mut i: usize = old.len();
    assert(out@ + places_down(i as nat, pred) =~= places_down(i as nat, pred));
    while i > 0
        invariant
            i <= old@.len(),
            ids == ids_of(row_views(old@)),
            pred == (|i: int| !new_ids.contains(ids[i])),
            forall|id: u64| #[trigger] new_index@.contains_key(id) <==> new_ids.contains(id),
            places_down(ids.len(), pred) == out@ + places_down(i as nat, pred),
        decreases i,
    {
        let ghost before = out@;
        i = i - 1;
        if !new_index.contains_key(&old[i].id) {
            out.push(i);
            assert(out@ + places_down(i as nat, pred) =~= before + (seq![i] + places_down(
                i as nat,
                pred,
            )));
        }
    }
    assert(out@ + places_down(0, pred) =~= out@);
    out
}

fn inserted_rows(
    new: &Vec<TrafficRow>,
    old_index: &HashMap<u64, usize>,
    Ghost(old_ids): Ghost<Seq<u64>>,
) -> (r: Vec<usize>)
    requires
        forall|id: u64| #[trigger] old_index@.contains_key(id) <==> old_ids.contains(id),
    ensures
        r@ == inserted_places(old_ids, ids_of(row_views(new@))),
{
    broadcast use vstd::std_specs::hash::group_hash_axioms;

    let ghost ids = ids_of(row_views(new@));
    let ghost pred = |i: int| !old_ids.contains(ids[i]);
    let mut out: Vec<usize> = Vec::new();
    let mut i: usize = 0;
    while i < new.len()
        invariant
            i <= new@.len(),
            ids == ids_of(row_views(new@)),
            pred == (|i: int| !old_ids.contains(ids[i])),
            forall|id: u64| #[trigger] old_index@.contains_key(id) <==> old_ids.contains(id),
            out@ == places(i as nat, pred),
        decreases new@.len() - i,
    {
        if !old_index.contains_key(&new[i].id) {
            out.push(i);
        }
        i = i + 1;
    }
    out
}

impl TrafficDataSource {
    /// A table with these rows.
    pub fn new(rows: Vec<TrafficRow>) -> (r: TrafficDataSource)
        ensures
            r@.rows == row_views(rows@),
            is_current(r@),
    {
        let (sent, received) = columns(&rows);
        let top_sent = leaders(&rows, &sent);
        let top_recv = leaders(&rows, &received);
        TrafficDataSource { connections: rows, top_sent, top_recv }
    }

    /// The number of rows.
    pub fn num_rows(&self) -> (r: usize)
        ensures
            r == self@.rows.len(),
    {
        self.connections.len()
    }

    /// What a column holds.
    pub fn column_type(column: i32) -> (r: ColumnKind)
        ensures
            r == kind_of_column(column),
    {
        if column == COL_COLOR_SENT || column == COL_COLOR_RECV {
            ColumnKind::Color
        } else {
            ColumnKind::Text
        }
    }

    /// What a cell holds.
    pub fn cell(&self, column: i32, row: i32) -> (r: Cell<String>)
        ensures
            r@ == cell_of(self@, column, row),
    {
        broadcast use vstd::std_specs::hash::group_hash_axioms;

        if row < 0 || row as usize >= self.connections.len() {
            return match TrafficDataSource::column_type(column) {
                ColumnKind::Color => Cell::Plain,
                ColumnKind::Text => Cell::Text("".to_string()),
            };
        }
        let conn = &self.connections[row as usize];
        assert(self@.rows[row as int] == conn@);
        match column {
            0 => Cell::Text(conn.source_ip.clone()),
            1 => Cell::Text(conn.outbound_target.clone()),
            2 => Cell::Text(conn.exe_name.clone()),
            3 => Cell::Text(conn.proxy_protocol.clone()),
            4 => Cell::Text(conn.proxy.clone()),
            5 => Cell::Text(conn.start_time.clone()),
            6 => Cell::Text(conn.status.clone()),
            7 => Cell::Text(TrafficStats::format_bytes(conn.bytes_sent)),
            8 => Cell::Text(TrafficStats::format_bytes(conn.bytes_received)),
            9 => color(self.top_sent.contains(&conn.id)),
            10 => color(self.top_recv.contains(&conn.id)),
            _ => Cell::Text("".to_string()),
        }
    }

    /// Takes new rows and leaves the highlights as they are.
    pub fn absorb(&mut self, rows: Vec<TrafficRow>)
        ensures
            final(self)@ == (TableView { rows: row_views(rows@), ..old(self)@ }),
            final(self)@ == absorbed(old(self)@, row_views(rows@)),
    {
        self.connections = rows;
    }

    /// Takes new rows, and tells which rows of the table that changes.
    pub fn refresh(&mut self, rows: Vec<TrafficRow>) -> (r: RowDiff)
        ensures
            final(self)@.rows == row_views(rows@),
            is_current(final(self)@),
            r.deleted@ == deleted_places(ids_of(old(self)@.rows), ids_of(final(self)@.rows)),
            r.inserted@ == inserted_places(ids_of(old(self)@.rows), ids_of(final(self)@.rows)),
            r.changed@ == changed_places(old(self)@, final(self)@),
    {
        broadcast use vstd::std_specs::hash::group_hash_axioms;

        let next = TrafficDataSource::new(rows);
        let old_index = index_rows(&self.connections);
        let new_index = index_rows(&next.connections);
        let ghost old_ids = ids_of(self@.rows);
        let ghost new_ids = ids_of(next@.rows);
        proof {
            assert forall|id: u64| #[trigger] old_index@.contains_key(id) <==> old_ids.contains(
                id,
            ) by {
                lemma_place_of(old_ids, id);
            }
            assert forall|id: u64| #[trigger] new_index@.contains_key(id) <==> new_ids.contains(
                id,
            ) by {
                lemma_place_of(new_ids, id);
            }
        }
        let deleted = deleted_rows(&self.connections, &new_index, Ghost(new_ids));
        let inserted = inserted_rows(&next.connections, &old_index, Ghost(old_ids));
        let changed = self.changed_rows(&next, &old_index);
        *self = next;
        RowDiff { deleted, inserted, changed }
    }

    fn changed_rows(
        &self,
        next: &TrafficDataSource,
        old_index: &HashMap<u64, usize>,
    ) -> (r: Vec<usize>)
        requires
            forall|id: u64| #[trigger]
                old_index@.contains_key(id) <==> place_of(ids_of(self@.rows), id) is Some,
            forall|id: u64| #[trigger]
                old_index@.contains_key(id) ==> place_of(ids_of(self@.rows), id) == Some(
                    old_index@[id] as int,
                ),
        ensures
            r@ == changed_places(self@, next@),
    {
        broadcast use vstd::std_specs::hash::group_hash_axioms;

        let ghost pred = |i: int| looks_different(self@, next@, i);
        let mut out: Vec<usize> = Vec::new();
        let mut i: usize = 0;
        while i < next.connections.len()
            invariant
                i <= next.connections@.len(),
                pred == (|i: int| looks_different(self@, next@, i)),
                forall|id: u64| #[trigger]
                    old_index@.contains_key(id) <==> place_of(ids_of(self@.rows), id) is Some,
                forall|id: u64| #[trigger]
                    old_index@.contains_key(id) ==> place_of(ids_of(self@.rows), id) == Some(
                        old_index@[id] as int,
                    ),
                out@ == places(i as nat, pred),
            decreases next.connections@.len() - i,
        {
            let row = &next.connections[i];
            let id: u64 = row.id;
            assert(next@.rows[i as int] == row@);
            match old_index.get(&id) {
                Some(j) => {
                    proof {
                        lemma_place_of(ids_of(self@.rows), id);
                        assert(self@.rows[*j as int] == self.connections@[*j as int]@);
                    }
                    let data_changed = !self.connections[*j].same(row);
                    let rank_changed = self.top_sent.contains(&id) != next.top_sent.contains(&id)
                        || self.top_recv.contains(&id) != next.top_recv.contains(&id);
                    if data_changed || rank_changed {
                        out.push(i);
                    }
                },
                None => {
                    assert(!pred(i as int));
                },
            }
            i = i + 1;
        }
        out
    }
}

/// The counters of rows, column by column.
fn columns(rows: &Vec<TrafficRow>) -> (r: (Vec<u64>, Vec<u64>))
    ensures
        r.0@ == sent_of(row_views(rows@)),
        r.1@ == received_of(row_views(rows@)),
{
    let mut sent: Vec<u64> = Vec::new();
    let mut received: Vec<u64> = Vec::new();
    let mut i: usize = 0;
    while i < rows.len()
        invariant
            i <= rows@.len(),
            sent@ == sent_of(row_views(rows@)).take(i as int),
            received@ == received_of(row_views(rows@)).take(i as int),
        decreases rows@.len() - i,
    {
        sent.push(rows[i].bytes_sent);
        received.push(rows[i].bytes_received);
        i = i + 1;
    }
    assert(sent@ =~= sent_of(row_views(rows@)));
    assert(received@ =~= received_of(row_views(rows@)));
    (sent, received)
}

// ---------------------------------------------------------------------------
// The window
// ---------------------------------------------------------------------------

/// What to do on a tick of the window.
#[derive(Clone, Copy, Debug, PartialEq, Eq, Structural)]
pub enum TickPlan {
    /// Hide the window.
    Hide,
    /// Take the new rows and leave the display alone: the window is being resized.
    Absorb,
    /// Take the new rows and tell the display; with redraws held back meanwhile or not.
    Refresh { hold_redraws: bool },
}

/// The plan for a tick, and the size to remember. `size` is that of the table, where there is
/// one on the screen; it may not be known.
pub open spec fn tick_plan(
    prev: (i32, i32),
    visible: bool,
    on_screen: bool,
    size: Option<(i32, i32)>,
) -> (TickPlan, (i32, i32)) {
    if !visible {
        (TickPlan::Hide, prev)
    } else if !on_screen {
        (TickPlan::Refresh { hold_redraws: false }, prev)
    } else {
        match size {
            Some(now) => if prev.0 != 0 && now != prev {
                (TickPlan::Absorb, now)
            } else {
                (TickPlan::Refresh { hold_redraws: true }, now)
            },
            None => (TickPlan::Refresh { hold_redraws: true }, prev),
        }
    }
}

/// The size of the table at the last tick.
#[derive(Clone, Copy, Debug)]
pub struct WindowTicker {
    pub prev_width: i32,
    pub prev_height: i32,
}

impl WindowTicker {
    /// No tick so far.
    pub fn new() -> (r: WindowTicker)
        ensures
            r.prev_width == 0,
            r.prev_height == 0,
    {
        WindowTicker { prev_width: 0, prev_height: 0 }
    }

    /// Plans a tick.
    pub fn tick(&mut self, visible: bool, on_screen: bool, size: Option<(i32, i32)>) -> (r:
        TickPlan)
        ensures
            (r, (final(self).prev_width, final(self).prev_height)) == tick_plan(
                (old(self).prev_width, old(self).prev_height),
                visible,
                on_screen,
                size,
            ),
    {
        if !visible {
            return TickPlan::Hide;
        }
        if !on_screen {
            return TickPlan::Refresh { hold_redraws: false };
        }
        if let Some((width, height)) = size {
            let is_first = self.prev_width == 0;
            let resizing = !is_first && (width != self.prev_width || height != self.prev_height);
            self.prev_width = width;
            self.prev_height = height;
            if resizing {
                return TickPlan::Absorb;
            }
        }
        TickPlan::Refresh { hold_redraws: true }
    }
}

/// Where something of a size starts when it is centered.
pub open spec fn centered_at(screen: int, size: int) -> int {
    if screen >= size {
        (screen - size) / 2
    } else {
        -((size - screen) / 2)
    }
}

/// Where something of this size starts when it is centered on the screen: half of what is left
/// over, rounded towards zero.
pub fn centered(screen: i32, size: i32) -> (r: i32)
    ensures
        screen >= size ==> r == (screen - size) / 2,
        screen < size ==> r == -((size - screen) / 2),
        r == centered_at(screen as int, size as int),
{
    let left: i64 = screen as i64 - size as i64;
    if left >= 0 {
        (left / 2) as i32
    } else {
        let over: i64 = -left;
        (-(over / 2)) as i32
    }
}

// ---------------------------------------------------------------------------
// Laws
// ---------------------------------------------------------------------------

/// The ids that a display shows after it was told of the rows that went.
pub open spec fn after_deletions(shown: Seq<u64>, deleted: Seq<usize>) -> Seq<u64>
    decreases deleted.len(),
{
    if deleted.len() == 0 {
        shown
    } else {
        after_deletions(shown.remove(deleted[0] as int), deleted.skip(1))
    }
}

/// The ids that a display shows after it was told of the rows that came, each at its place in
/// `new`.
pub open spec fn after_insertions(shown: Seq<u64>, inserted: Seq<usize>, new: Seq<u64>) -> Seq<u64>
    decreases inserted.len(),
{
    if inserted.len() == 0 {
        shown
    } else {
        let i = inserted[0] as int;
        after_insertions(shown.insert(i, new[i]), inserted.skip(1), new)
    }
}

/// Whether numbers rise strictly.
pub open spec fn is_rising(s: Seq<u64>) -> bool {
    forall|i: int, j: int| 0 <= i < j < s.len() ==> s[i] < s[j]
}

/// The members of `s` that are in `t` too, in the order of `s`.
pub open spec fn common(s: Seq<u64>, t: Seq<u64>) -> Seq<u64>
    decreases s.len(),
{
    if s.len() == 0 {
        Seq::empty()
    } else if t.contains(s.last()) {
        common(s.drop_last(), t).push(s.last())
    } else {
        common(s.drop_last(), t)
    }
}

proof fn lemma_deletions_keep_common(old: Seq<u64>, new: Seq<u64>, n: nat, tail: Seq<u64>)
    requires
        n <= old.len(),
        old.len() <= usize::MAX,
    ensures
        after_deletions(
            old.take(n as int) + tail,
            places_down(n, |i: int| !new.contains(old[i])),
        ) == common(old.take(n as int), new) + tail,
    decreases n,
{
    let pred = |i: int| !new.contains(old[i]);
    if n == 0 {
        assert(old.take(0) + tail =~= common(old.take(0), new) + tail);
    } else {
        let m = (n - 1) as nat;
        let head = old.take(m as int);
        assert(old.take(n as int) =~= head.push(old[m as int]));
        assert(old.take(n as int).drop_last() =~= head);
        if pred(m as int) {
            let rest = places_down(m, pred);
            assert((seq![m as usize] + rest).skip(1) =~= rest);
            assert((old.take(n as int) + tail).remove(m as int) =~= head + tail);
            lemma_deletions_keep_common(old, new, m, tail);
        } else {
            let longer = seq![old[m as int]] + tail;
            assert(old.take(n as int) + tail =~= head + longer);
            lemma_deletions_keep_common(old, new, m, longer);
            assert(common(head, new) + longer =~= common(head, new).push(old[m as int]) + tail);
        }
    }
}

proof fn lemma_common_members(s: Seq<u64>, t: Seq<u64>)
    ensures
        forall|x: u64| #[trigger] common(s, t).contains(x) <==> s.contains(x) && t.contains(x),
        is_rising(s) ==> is_rising(common(s, t)),
    decreases s.len(),
{
    if s.len() > 0 {
        let init = s.drop_last();
        let last = s.last();
        lemma_common_members(init, t);
        assert(s =~= init.push(last));
        assert forall|x: u64| #[trigger] common(s, t).contains(x) <==> s.contains(x) && t.contains(
            x,
        ) by {
            vstd::seq_lib::lemma_seq_contains_after_push(init, last, x);
            vstd::seq_lib::lemma_seq_contains_after_push(common(init, t), last, x);
            assert(common(init, t).contains(x) <==> init.contains(x) && t.contains(x));
        }
        if is_rising(s) {
            assert(is_rising(init));
            let c = common(init, t);
            assert forall|i: int, j: int|
                0 <= i < j < common(s, t).len() implies common(s, t)[i] < common(s, t)[j] by {
                if j == c.len() {
                    assert(c.contains(c[i]));
                    let k = choose|k: int| 0 <= k < init.len() && init[k] == c[i];
                    assert(s[k] < s[s.len() - 1]);
                }
            }
        }
    }
}

proof fn lemma_rising_sequences_agree(s: Seq<u64>, t: Seq<u64>)
    requires
        is_rising(s),
        is_rising(t),
        forall|x: u64| s.contains(x) <==> t.contains(x),
    ensures
        s == t,
    decreases s.len(),
{
    if s.len() == 0 {
        if t.len() > 0 {
            assert(t.contains(t[0]));
            assert(s.contains(t[0]));
        }
        assert(s =~= t);
    } else {
        assert(s.contains(s.last()));
        assert(t.contains(s.last()));
        let k = choose|k: int| 0 <= k < t.len() && t[k] == s.last();
        assert(t.contains(t.last()));
        assert(s.contains(t.last()));
        let m = choose|m: int| 0 <= m < s.len() && s[m] == t.last();
        assert(s.last() == t.last());
        let s0 = s.drop_last();
        let t0 = t.drop_last();
        assert forall|x: u64| s0.contains(x) <==> t0.contains(x) by {
            assert(s =~= s0.push(s.last()));
            assert(t =~= t0.push(t.last()));
            vstd::seq_lib::lemma_seq_contains_after_push(s0, s.last(), x);
            vstd::seq_lib::lemma_seq_contains_after_push(t0, t.last(), x);
            if s0.contains(s.last()) {
                let i = choose|i: int| 0 <= i < s0.len() && s0[i] == s.last();
                assert(s[i] < s[s.len() - 1]);
            }
            if t0.contains(t.last()) {
                let i = choose|i: int| 0 <= i < t0.len() && t0[i] == t.last();
                assert(t[i] < t[t.len() - 1]);
            }
        }
        lemma_rising_sequences_agree(s0, t0);
        assert(s =~= s0.push(s.last()));
        assert(t =~= t0.push(t.last()));
    }
}

proof fn lemma_places_push(a: Seq<usize>, x: usize, shown: Seq<u64>, new: Seq<u64>)
    ensures
        after_insertions(shown, a.push(x), new) == after_insertions(shown, a, new).insert(
            x as int,
            new[x as int],
        ),
    decreases a.len(),
{
    reveal_with_fuel(after_insertions, 2);
    if a.len() == 0 {
        assert(a.push(x).skip(1) =~= Seq::<usize>::empty());
    } else {
        assert(a.push(x).skip(1) =~= a.skip(1).push(x));
        let i = a[0] as int;
        lemma_places_push(a.skip(1), x, shown.insert(i, new[i]), new);
    }
}

proof fn lemma_insertions_fill(old: Seq<u64>, new: Seq<u64>, n: nat)
    requires
        n <= new.len(),
        new.len() <= usize::MAX,
    ensures
        after_insertions(
            common(new, old),
            places(n, |i: int| !old.contains(new[i])),
            new,
        ) == new.take(n as int) + common_from(new, old, n as int),
    decreases n,
{
    let pred = |i: int| !old.contains(new[i]);
    if n == 0 {
        lemma_common_from(new, old, 0);
        assert(new.take(0) =~= Seq::empty());
        assert(common(new.take(0), old) =~= Seq::empty());
        assert(new.take(0) + common_from(new, old, 0) =~= common(new, old));
    } else {
        let m = n - 1;
        lemma_insertions_fill(old, new, m as nat);
        let before = new.take(m) + common_from(new, old, m);
        if pred(m) {
            lemma_places_push(places(m as nat, pred), m as usize, common(new, old), new);
            assert(before.insert(m, new[m]) =~= new.take(n as int) + common_from(
                new,
                old,
                n as int,
            ));
        } else {
            assert(before =~= new.take(n as int) + common_from(new, old, n as int));
        }
    }
}

/// The members of `s` from place `i` on that are in `t` too.
spec fn common_from(s: Seq<u64>, t: Seq<u64>, i: int) -> Seq<u64>
    decreases s.len() - i,
{
    if i < 0 || i >= s.len() {
        Seq::empty()
    } else if t.contains(s[i]) {
        seq![s[i]] + common_from(s, t, i + 1)
    } else {
        common_from(s, t, i + 1)
    }
}

proof fn lemma_common_from(s: Seq<u64>, t: Seq<u64>, i: int)
    requires
        0 <= i <= s.len(),
    ensures
        common(s.take(i), t) + common_from(s, t, i) == common(s, t),
    decreases s.len() - i,
{
    if i == s.len() {
        assert(s.take(i) =~= s);
        assert(common(s.take(i), t) + common_from(s, t, i) =~= common(s, t));
    } else {
        lemma_common_from(s, t, i + 1);
        assert(s.take(i + 1).drop_last() =~= s.take(i));
        assert(s.take(i + 1).last() == s[i]);
        assert(common(s.take(i), t) + common_from(s, t, i) =~= common(s.take(i + 1), t)
            + common_from(s, t, i + 1));
    }
}

/// Law: a display that is told of the rows that went, from the last to the first, and then of
/// those that came, from the first to the last, shows the new rows in their order, provided that
/// the rows which stay keep their order among themselves.
pub proof fn diff_brings_the_display_up_to_date(old: Seq<u64>, new: Seq<u64>)
    requires
        common(old, new) == common(new, old),
        old.len() <= usize::MAX,
        new.len() <= usize::MAX,
    ensures
        after_insertions(
            after_deletions(old, deleted_places(old, new)),
            inserted_places(old, new),
            new,
        ) == new,
{
    let empty = Seq::<u64>::empty();
    assert(old.take(old.len() as int) + empty =~= old);
    assert(old.take(old.len() as int) =~= old);
    lemma_deletions_keep_common(old, new, old.len(), empty);
    assert(common(old, new) + empty =~= common(old, new));
    lemma_insertions_fill(old, new, new.len());
    assert(new.take(new.len() as int) + common_from(new, old, new.len() as int) =~= new);
}

/// Law: rows whose ids rise, as those of a tracker do, keep their order from one display to the
/// next.
pub proof fn rising_rows_keep_their_order(old: Seq<u64>, new: Seq<u64>)
    requires
        is_rising(old),
        is_rising(new),
    ensures
        common(old, new) == common(new, old),
{
    lemma_common_members(old, new);
    lemma_common_members(new, old);
    assert forall|x: u64| common(old, new).contains(x) <==> common(new, old).contains(x) by {
        assert(common(old, new).contains(x) <==> old.contains(x) && new.contains(x));
        assert(common(new, old).contains(x) <==> new.contains(x) && old.contains(x));
    }
    lemma_rising_sequences_agree(common(old, new), common(new, old));
}

proof fn lemma_places_members(n: nat, pred: spec_fn(int) -> bool, i: int)
    requires
        0 <= i < n <= usize::MAX,
        pred(i),
    ensures
        places(n, pred).contains(i as usize),
    decreases n,
{
    let m = (n - 1) as nat;
    if i == m {
        let s = places(m, pred).push(m as usize);
        assert(s[s.len() - 1] == m as usize);
    } else {
        lemma_places_members(m, pred, i);
        if pred(m as int) {
            vstd::seq_lib::lemma_seq_contains_after_push(
                places(m, pred),
                m as usize,
                i as usize,
            );
        }
    }
}

/// Law: a row that the display is not told of looks as before.
pub proof fn other_rows_look_as_before(old: TableView, new: TableView, i: int)
    requires
        0 <= i < new.rows.len() <= usize::MAX,
        !inserted_places(ids_of(old.rows), ids_of(new.rows)).contains(i as usize),
        !changed_places(old, new).contains(i as usize),
    ensures
        exists|j: int|
            0 <= j < old.rows.len() && #[trigger] old.rows[j] == new.rows[i]
                && old.top_sent.contains(new.rows[i].id) == new.top_sent.contains(new.rows[i].id)
                && old.top_recv.contains(new.rows[i].id) == new.top_recv.contains(new.rows[i].id),
{
    let old_ids = ids_of(old.rows);
    let new_ids = ids_of(new.rows);
    let id = new.rows[i].id;
    assert(new_ids[i] == id);
    let is_new = |k: int| !old_ids.contains(new_ids[k]);
    let differs = |k: int| looks_different(old, new, k);
    if is_new(i) {
        lemma_places_members(new_ids.len(), is_new, i);
    }
    if differs(i) {
        lemma_places_members(new.rows.len(), differs, i);
    }
    lemma_place_of(old_ids, id);
    let j = place_of(old_ids, id)->0;
    assert(old.rows[j] == new.rows[i]);
}

/// Law: a cell shows its part of the row: where the connection comes from, where it goes, its
/// program, its protocol, its way, its start, its status, and the sizes of what it sent and
/// received; two columns hold the colors of these sizes. A cell outside the table is empty.
pub proof fn cells_show_their_part(t: TableView, row: i32, column: i32)
    ensures
        0 <= row < t.rows.len() ==> {
            let r = t.rows[row as int];
            &&& cell_of(t, 0, row) == Cell::Text(r.source_ip)
            &&& cell_of(t, 1, row) == Cell::Text(r.outbound_target)
            &&& cell_of(t, 2, row) == Cell::Text(r.exe_name)
            &&& cell_of(t, 3, row) == Cell::Text(r.proxy_protocol)
            &&& cell_of(t, 4, row) == Cell::Text(r.proxy)
            &&& cell_of(t, 5, row) == Cell::Text(r.start_time)
            &&& cell_of(t, 6, row) == Cell::Text(r.status)
            &&& cell_of(t, 7, row) == Cell::Text(stats::size_text(r.bytes_sent))
            &&& cell_of(t, 8, row) == Cell::Text(stats::size_text(r.bytes_received))
            &&& cell_of(t, 9, row) is Highlight <==> t.top_sent.contains(r.id)
            &&& cell_of(t, 9, row) is Plain <==> !t.top_sent.contains(r.id)
            &&& cell_of(t, 10, row) is Highlight <==> t.top_recv.contains(r.id)
            &&& cell_of(t, 10, row) is Plain <==> !t.top_recv.contains(r.id)
            &&& column < 0 || column > 10 ==> cell_of(t, column, row) == Cell::Text(""@)
        },
        !(0 <= row < t.rows.len()) ==> cell_of(t, column, row) == (if column == 9 || column == 10 {
            Cell::<Seq<char>>::Plain
        } else {
            Cell::Text(""@)
        }),
        kind_of_column(column) is Color <==> column == 9 || column == 10,
        COLUMN_COUNT == 11,
{
}

/// Law: a row shows what is known of its connection, with its counters as they were read.
pub proof fn rows_show_their_connection(
    e: connection_tracker::InfoView,
    bytes_sent: u64,
    bytes_received: u64,
)
    ensures
        ({
            let r = row_of(e, bytes_sent, bytes_received);
            &&& r.id == e.id && r.source_ip == e.source_ip
            &&& r.outbound_target == e.outbound_target && r.exe_name == e.exe_name
            &&& r.proxy_protocol == e.proxy_protocol && r.proxy == e.proxy
            &&& r.start_time == e.start_time
            &&& r.status == connection_tracker::status_text(e.status)
            &&& r.bytes_sent == bytes_sent && r.bytes_received == bytes_received
        }),
{
}

proof fn lemma_highlight(top: Set<u64>, ids: Seq<u64>, counts: Seq<u64>, i: int)
    requires
        is_highlight(top, ids, counts),
        ids.len() == counts.len(),
        ids.no_duplicates(),
        0 <= i < ids.len(),
    ensures
        top.contains(ids[i]) ==> counts[i] > 10485760,
        counts[i] > 10485760 && !top.contains(ids[i]) ==> exists|p: Seq<int>|
            #![trigger p.len()]
            p.len() == 5 && p.no_duplicates() && forall|k: int|
                0 <= k < 5 ==> 0 <= #[trigger] p[k] < ids.len() && top.contains(ids[p[k]])
                    && counts[p[k]] >= counts[i],
{
    let p = choose|p: Seq<int>| #[trigger] is_podium(counts, p) && top == picked_ids(ids, p);
    let picked = p.map_values(|i: int| ids[i]);
    assert forall|k: int| 0 <= k < p.len() implies top.contains(ids[#[trigger] p[k]]) by {
        assert(picked[k] == ids[p[k]]);
        assert(picked.contains(picked[k]));
    }
    if top.contains(ids[i]) {
        assert(picked.contains(ids[i]));
        let k = choose|k: int| 0 <= k < picked.len() && picked[k] == ids[i];
        assert(ids[p[k]] == ids[i]);
        assert(p[k] == i);
    } else if counts[i] > 10485760 {
        if p.contains(i) {
            let k = choose|k: int| 0 <= k < p.len() && p[k] == i;
            assert(top.contains(ids[p[k]]));
        }
        assert(counts[i] > HIGHLIGHT_MIN_BYTES);
        assert(p.len() == TOP_N);
        assert forall|a: int, b: int| 0 <= a < p.len() && 0 <= b < p.len() && a != b implies p[a]
            != p[b] by {
            if a < b {
                assert(beats(counts, p[a], p[b]));
            } else {
                assert(beats(counts, p[b], p[a]));
            }
        }
        assert forall|k: int| 0 <= k < 5 implies 0 <= #[trigger] p[k] < ids.len() && top.contains(
            ids[p[k]],
        ) && counts[p[k]] >= counts[i] by {
            assert(beats(counts, p[k], i));
        }
        assert(p.len() == 5 && p.no_duplicates());
    }
}

/// Law: a row is highlighted only where its count is above ten megabytes; and one above that is
/// left out only where five others are highlighted whose counts are no smaller.
pub proof fn highlights_mark_the_largest(t: TableView, i: int)
    requires
        is_current(t),
        ids_of(t.rows).no_duplicates(),
        0 <= i < t.rows.len(),
    ensures
        t.top_sent.contains(t.rows[i].id) ==> t.rows[i].bytes_sent > 10485760,
        t.top_recv.contains(t.rows[i].id) ==> t.rows[i].bytes_received > 10485760,
        t.rows[i].bytes_sent > 10485760 && !t.top_sent.contains(t.rows[i].id) ==> exists|p: Seq<int>|
            #![trigger p.len()]
            p.len() == 5 && p.no_duplicates() && forall|k: int|
                0 <= k < 5 ==> 0 <= #[trigger] p[k] < t.rows.len() && t.top_sent.contains(
                    t.rows[p[k]].id,
                ) && t.rows[p[k]].bytes_sent >= t.rows[i].bytes_sent,
        t.rows[i].bytes_received > 10485760 && !t.top_recv.contains(t.rows[i].id) ==> exists|
            p: Seq<int>,
        |
            #![trigger p.len()]
            p.len() == 5 && p.no_duplicates() && forall|k: int|
                0 <= k < 5 ==> 0 <= #[trigger] p[k] < t.rows.len() && t.top_recv.contains(
                    t.rows[p[k]].id,
                ) && t.rows[p[k]].bytes_received >= t.rows[i].bytes_received,
{
    let ids = ids_of(t.rows);
    let sent = sent_of(t.rows);
    let received = received_of(t.rows);
    assert(forall|k: int|
        0 <= k < t.rows.len() ==> ids[k] == t.rows[k].id && sent[k] == t.rows[k].bytes_sent
            && received[k] == t.rows[k].bytes_received);
    lemma_highlight(t.top_sent, ids, sent, i);
    lemma_highlight(t.top_recv, ids, received, i);
    if t.rows[i].bytes_sent > 10485760 && !t.top_sent.contains(t.rows[i].id) {
        let p = choose|p: Seq<int>|
            #![trigger p.len()]
            p.len() == 5 && p.no_duplicates() && forall|k: int|
                0 <= k < 5 ==> 0 <= #[trigger] p[k] < ids.len() && t.top_sent.contains(ids[p[k]])
                    && sent[p[k]] >= sent[i];
        assert(p.len() == 5);
    }
    if t.rows[i].bytes_received > 10485760 && !t.top_recv.contains(t.rows[i].id) {
        let p = choose|p: Seq<int>|
            #![trigger p.len()]
            p.len() == 5 && p.no_duplicates() && forall|k: int|
                0 <= k < 5 ==> 0 <= #[trigger] p[k] < ids.len() && t.top_recv.contains(ids[p[k]])
                    && received[p[k]] >= received[i];
        assert(p.len() == 5);
    }
}

proof fn lemma_places_hold(n: nat, pred: spec_fn(int) -> bool, i: int)
    requires
        n <= usize::MAX,
        0 <= i < n,
    ensures
        places(n, pred).contains(i as usize) <==> pred(i),
    decreases n,
{
    let m = (n - 1) as nat;
    let rest = places(m, pred);
    if pred(m as int) {
        vstd::seq_lib::lemma_seq_contains_after_push(rest, m as usize, i as usize);
    }
    lemma_places_below(m, pred);
    if i < m {
        lemma_places_hold(m, pred, i);
    } else if rest.contains(i as usize) {
        let k = choose|k: int| 0 <= k < rest.len() && rest[k] == i as usize;
        assert(rest[k] < m);
    }
}

proof fn lemma_places_below(n: nat, pred: spec_fn(int) -> bool)
    requires
        n <= usize::MAX,
    ensures
        forall|k: int| 0 <= k < places(n, pred).len() ==> #[trigger] places(n, pred)[k] < n,
    decreases n,
{
    if n > 0 {
        let m = (n - 1) as nat;
        lemma_places_below(m, pred);
        let rest = places(m, pred);
        assert forall|k: int| 0 <= k < places(n, pred).len() implies #[trigger] places(n, pred)[k]
            < n by {
            if k < rest.len() {
                assert(places(n, pred)[k] == rest[k]);
            }
        }
    }
}

/// Law: the display is told of a row just where there is something to tell: that it came, where its
/// connection was not shown before; that it looks different, where it was and shows something else
/// or its highlight came or went.
pub proof fn display_is_told_of_what_changed(old: TableView, new: TableView, i: int, j: int)
    requires
        0 <= i < new.rows.len() <= usize::MAX,
        ids_of(old.rows).no_duplicates(),
    ensures
        inserted_places(ids_of(old.rows), ids_of(new.rows)).contains(i as usize) <==> forall|k: int|
            0 <= k < old.rows.len() ==> (#[trigger] old.rows[k]).id != new.rows[i].id,
        0 <= j < old.rows.len() && old.rows[j].id == new.rows[i].id ==> (changed_places(
            old,
            new,
        ).contains(i as usize) <==> old.rows[j] != new.rows[i] || old.top_sent.contains(
            new.rows[i].id,
        ) != new.top_sent.contains(new.rows[i].id) || old.top_recv.contains(new.rows[i].id)
            != new.top_recv.contains(new.rows[i].id)),
        (forall|k: int| 0 <= k < old.rows.len() ==> (#[trigger] old.rows[k]).id != new.rows[i].id)
            ==> !changed_places(old, new).contains(i as usize),
{
    let old_ids = ids_of(old.rows);
    let new_ids = ids_of(new.rows);
    let id = new.rows[i].id;
    assert(new_ids[i] == id);
    assert(forall|k: int| 0 <= k < old.rows.len() ==> old_ids[k] == old.rows[k].id);
    let is_new = |k: int| !old_ids.contains(new_ids[k]);
    let differs = |k: int| looks_different(old, new, k);
    lemma_places_hold(new_ids.len(), is_new, i);
    lemma_places_hold(new.rows.len(), differs, i);
    lemma_place_of(old_ids, id);
    if old_ids.contains(id) {
        let k = choose|k: int| 0 <= k < old_ids.len() && old_ids[k] == id;
        assert(old.rows[k].id == id);
    } else {
        assert forall|k: int| 0 <= k < old.rows.len() implies (#[trigger] old.rows[k]).id != id by {
            assert(old_ids[k] == old.rows[k].id);
            assert(old_ids.contains(old_ids[k]));
        }
    }
    if 0 <= j < old.rows.len() && old.rows[j].id == id {
        assert(old_ids[j] == id);
        assert(old_ids.contains(id));
        let k = place_of(old_ids, id)->0;
        assert(old_ids[k] == old_ids[j]);
        assert(k == j);
    }
}

/// Law: a window that is not visible is hidden; one that is shows the new rows, unless the size of
/// its table just changed: then they are taken and shown later. The first size that is seen is no
/// change, and redraws are held back just where the table is on the screen.
pub proof fn ticks_refresh_unless_resizing(
    prev: (i32, i32),
    on_screen: bool,
    size: Option<(i32, i32)>,
    now: (i32, i32),
)
    ensures
        tick_plan(prev, false, on_screen, size) == (TickPlan::Hide, prev),
        tick_plan(prev, true, false, size) == (TickPlan::Refresh { hold_redraws: false }, prev),
        tick_plan(prev, true, true, None) == (TickPlan::Refresh { hold_redraws: true }, prev),
        tick_plan(prev, true, true, Some(now)).1 == now,
        tick_plan(prev, true, true, Some(now)).0 is Absorb <==> prev.0 != 0 && (now.0 != prev.0
            || now.1 != prev.1),
        !(tick_plan(prev, true, true, Some(now)).0 is Absorb) ==> tick_plan(
            prev,
            true,
            true,
            Some(now),
        ).0 == (TickPlan::Refresh { hold_redraws: true }),
{
}

/// Law: what is centered has as much room before it as behind it, up to one; a size that does not
/// fit starts as far outside.
pub proof fn centered_windows_have_equal_margins(screen: int, size: int)
    ensures
        ({
            let before = centered_at(screen, size);
            let behind = screen - size - before;
            &&& screen >= size ==> before >= 0 && 0 <= behind - before <= 1
            &&& screen < size ==> before <= 0 && 0 <= before - behind <= 1
        }),
{
}

/// Law: rows that are taken while the window is resized are shown, and leave the highlights alone.
pub proof fn absorbed_rows_keep_the_highlights(t: TableView, rows: Seq<RowView>)
    ensures
        absorbed(t, rows).rows == rows,
        absorbed(t, rows).top_sent == t.top_sent,
        absorbed(t, rows).top_recv == t.top_recv,
{
}

/// Law: every row is shown, in its place.
pub proof fn every_row_is_seen(rows: Seq<TrafficRow>, i: int)
    requires
        0 <= i < rows.len(),
    ensures
        row_views(rows).len() == rows.len(),
        row_views(rows)[i] == rows[i]@,
{
}

} // verus!
