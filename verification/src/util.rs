//! The end of HTTP headers.

use vstd::prelude::*;

verus! {

/// Where the empty line that starts with the newline at `i` ends: a newline follows, or a
/// carriage return and a newline.
pub open spec fn blank_line_end(buf: Seq<u8>, i: int) -> Option<int> {
    if i + 1 < buf.len() && buf[i] == 0x0A && buf[i + 1] == 0x0A {
        Some(i + 2)
    } else if i + 2 < buf.len() && buf[i] == 0x0A && buf[i + 1] == 0x0D && buf[i + 2] == 0x0A {
        Some(i + 3)
    } else {
        None
    }
}

/// Where the first empty line at or after `from` ends.
pub open spec fn separator_from(buf: Seq<u8>, from: int) -> Option<int>
    decreases buf.len() - from,
{
    if from + 1 >= buf.len() {
        None
    } else if blank_line_end(buf, from) is Some {
        blank_line_end(buf, from)
    } else {
        separator_from(buf, from + 1)
    }
}

/// Where the HTTP headers in `buf` end.
pub open spec fn headers_end(buf: Seq<u8>) -> Option<int> {
    separator_from(buf, 0)
}

/// Finds the end of HTTP headers in `buf`: the end of the first empty line.
///
/// `start_pos` is a hint for where to start, for incremental reads: an empty line that starts
/// more than three bytes before it is not found. Pass 0 to search from the beginning.
pub fn find_header_separator(buf: &[u8], start_pos: usize) -> (r: Option<usize>)
    ensures
        match r {
            Some(end) => separator_from(
                buf@,
                if start_pos >= 3 {
                    start_pos - 3
                } else {
                    0
                },
            ) == Some(end as int) && end <= buf@.len(),
            None => separator_from(
                buf@,
                if start_pos >= 3 {
                    start_pos - 3
                } else {
                    0
                },
            ) is None,
        },
{
    if buf.len() < 2 {
        return None;
    }
    let start: usize = start_pos.saturating_sub(3);
    let mut i: usize = start;
    while i < buf.len() - 1
        invariant
            buf@.len() >= 2,
            start == (if start_pos >= 3 {
                start_pos - 3
            } else {
                0
            }),
            separator_from(buf@, start as int) == separator_from(buf@, i as int),
        decreases buf@.len() - i,
    {
        if buf[i] == 0x0A {
            if buf[i + 1] == 0x0A {
                return Some(i + 2);
            }
            if i + 2 < buf.len() && buf[i + 1] == 0x0D && buf[i + 2] == 0x0A {
                return Some(i + 3);
            }
        }
        i = i + 1;
    }
    None
}

/// `separator_from` is the end of the first empty line.
pub proof fn separator_is_first(buf: Seq<u8>, from: int)
    requires
        0 <= from,
    ensures
        match separator_from(buf, from) {
            Some(end) => exists|i: int|
                #![trigger blank_line_end(buf, i)]
                from <= i && blank_line_end(buf, i) == Some(end) && (forall|j: int|
                    from <= j < i ==> blank_line_end(buf, j) is None),
            None => forall|j: int| from <= j ==> blank_line_end(buf, j) is None,
        },
    decreases buf.len() - from,
{
    if from + 1 < buf.len() && blank_line_end(buf, from) is None {
        separator_is_first(buf, from + 1);
        if let Some(end) = separator_from(buf, from + 1) {
            let i = choose|i: int|
                #![trigger blank_line_end(buf, i)]
                from + 1 <= i && blank_line_end(buf, i) == Some(end) && (forall|j: int|
                    from + 1 <= j < i ==> blank_line_end(buf, j) is None);
            assert(blank_line_end(buf, i) == Some(end));
        }
    }
}

proof fn lemma_skip_empty_stretch(buf: Seq<u8>, from: int, to: int)
    requires
        0 <= from <= to,
        forall|j: int| from <= j < to ==> blank_line_end(buf, j) is None,
    ensures
        separator_from(buf, from) == separator_from(buf, to),
    decreases to - from,
{
    if from < to {
        assert(blank_line_end(buf, from) is None);
        lemma_skip_empty_stretch(buf, from + 1, to);
    }
}

/// Bytes in front of others move what is found in the others.
pub proof fn separator_after(front: Seq<u8>, buf: Seq<u8>, from: int)
    requires
        0 <= from,
    ensures
        separator_from(front + buf, front.len() + from) == (match separator_from(buf, from) {
            Some(end) => Some(front.len() + end),
            None => None::<int>,
        }),
    decreases buf.len() - from,
{
    let all = front + buf;
    let n = front.len();
    assert(blank_line_end(all, n + from) == (match blank_line_end(buf, from) {
        Some(end) => Some(n + end),
        None => None::<int>,
    })) by {
        if from < buf.len() {
            assert(all[n + from] == buf[from]);
        }
        if from + 1 < buf.len() {
            assert(all[n + from + 1] == buf[from + 1]);
        }
        if from + 2 < buf.len() {
            assert(all[n + from + 2] == buf[from + 2]);
        }
    }
    if from + 1 < buf.len() && blank_line_end(buf, from) is None {
        separator_after(front, buf, from + 1);
    }
}

/// Where no empty line starts before some place, the search can start there.
pub proof fn headers_end_from(buf: Seq<u8>, to: int)
    requires
        0 <= to,
        forall|j: int| 0 <= j < to ==> blank_line_end(buf, j) is None,
    ensures
        headers_end(buf) == separator_from(buf, to),
{
    lemma_skip_empty_stretch(buf, 0, to);
}

/// The headers end with the first empty line.
pub proof fn headers_end_at_first_separator(buf: Seq<u8>, i: int)
    requires
        0 <= i,
        blank_line_end(buf, i) is Some,
        forall|j: int| 0 <= j < i ==> blank_line_end(buf, j) is None,
    ensures
        headers_end(buf) == blank_line_end(buf, i),
{
    lemma_skip_empty_stretch(buf, 0, i);
}

/// Law: when the first `searched` bytes hold no end of headers, a search with that hint finds
/// what a search from the beginning finds.
pub proof fn search_hint_loses_nothing(buf: Seq<u8>, searched: int)
    requires
        0 <= searched <= buf.len(),
        headers_end(buf.take(searched)) is None,
    ensures
        separator_from(
            buf,
            if searched >= 3 {
                searched - 3
            } else {
                0
            },
        ) == headers_end(buf),
{
    let head = buf.take(searched);
    let start = if searched >= 3 {
        searched - 3
    } else {
        0
    };
    separator_is_first(head, 0);
    assert forall|j: int| 0 <= j < start implies blank_line_end(buf, j) is None by {
        assert(blank_line_end(head, j) is None);
        assert(head[j] == buf[j] && head[j + 1] == buf[j + 1] && head[j + 2] == buf[j + 2]);
    }
    lemma_skip_empty_stretch(buf, 0, start);
}

/// Law: an end of headers that is found stays where it is when more bytes follow.
pub proof fn found_end_is_stable(buf: Seq<u8>, more: Seq<u8>)
    requires
        headers_end(buf) is Some,
    ensures
        headers_end(buf + more) == headers_end(buf),
        headers_end(buf)->0 <= buf.len(),
{
    let all = buf + more;
    separator_is_first(buf, 0);
    let end = headers_end(buf)->0;
    let i = choose|i: int|
        #![trigger blank_line_end(buf, i)]
        0 <= i && blank_line_end(buf, i) == Some(end) && (forall|j: int|
            0 <= j < i ==> blank_line_end(buf, j) is None);
    assert forall|j: int| 0 <= j <= i implies blank_line_end(all, j) == blank_line_end(buf, j) by {
        assert(all[j] == buf[j]);
        assert(all[j + 1] == buf[j + 1]);
        if j < i {
            assert(all[j + 2] == buf[j + 2] || j + 2 >= buf.len());
        }
    }
    lemma_skip_empty_stretch(all, 0, i);
    assert(separator_from(all, i) == blank_line_end(all, i));
}

/// Whether an empty line starts at the newline at `i` and is `len` bytes long with it: two newlines,
/// or a carriage return between them.
pub open spec fn is_empty_line(buf: Seq<u8>, i: int, len: int) -> bool {
    ||| len == 2 && 0 <= i && i + 2 <= buf.len() && buf[i] == 10 && buf[i + 1] == 10
    ||| len == 3 && 0 <= i && i + 3 <= buf.len() && buf[i] == 10 && buf[i + 1] == 13 && buf[i + 2]
        == 10
}

/// Law: the end that a search finds is that of an empty line at or after its start, and none starts
/// between the two; where it finds none, there is none.
pub proof fn search_finds_the_first_empty_line(buf: Seq<u8>, from: int)
    requires
        0 <= from,
    ensures
        match separator_from(buf, from) {
            Some(end) => exists|i: int, len: int|
                #![trigger is_empty_line(buf, i, len)]
                from <= i && is_empty_line(buf, i, len) && end == i + len && (forall|j: int, n: int|
                    from <= j < i ==> !is_empty_line(buf, j, n)),
            None => forall|j: int, n: int| from <= j ==> !is_empty_line(buf, j, n),
        },
{
    separator_is_first(buf, from);
    assert forall|j: int, n: int| is_empty_line(buf, j, n) implies blank_line_end(buf, j)
        is Some by {}
    if let Some(end) = separator_from(buf, from) {
        let i = choose|i: int|
            #![trigger blank_line_end(buf, i)]
            from <= i && blank_line_end(buf, i) == Some(end) && (forall|j: int|
                from <= j < i ==> blank_line_end(buf, j) is None);
        assert(is_empty_line(buf, i, end - i));
    }
}

/// Whether bytes end with an empty line.
pub open spec fn ends_empty(b: Seq<u8>) -> bool {
    is_empty_line(b, b.len() - 2, 2) || is_empty_line(b, b.len() - 3, 3)
}

/// Law: the headers are the shortest part from the start that ends with an empty line; bytes of
/// which no part does hold no headers.
pub proof fn headers_are_the_shortest_part(head: Seq<u8>, rest: Seq<u8>)
    requires
        forall|k: int| 0 <= k < head.len() ==> !ends_empty(#[trigger] head.take(k)),
    ensures
        ends_empty(head) ==> headers_end(head + rest) == Some(head.len() as int),
        !ends_empty(head) ==> headers_end(head) is None,
{
    let n = head.len() as int;
    assert forall|j: int, len: int| is_empty_line(head, j, len) implies j + len == n by {
        let part = head.take(j + len);
        if j + len < n {
            assert(is_empty_line(part, j, len));
            assert(ends_empty(part));
        }
    }
    search_finds_the_first_empty_line(head, 0);
    if ends_empty(head) {
        let i = if is_empty_line(head, n - 2, 2) {
            n - 2
        } else {
            n - 3
        };
        assert(is_empty_line(head, i, n - i));
        assert(headers_end(head) is Some);
        found_end_is_stable(head, rest);
    } else if let Some(end) = headers_end(head) {
        let (i, len) = choose|i: int, len: int|
            #![trigger is_empty_line(head, i, len)]
            0 <= i && is_empty_line(head, i, len) && end == i + len && (forall|j: int, m: int|
                0 <= j < i ==> !is_empty_line(head, j, m));
        assert(ends_empty(head));
    }
}

} // verus!
