//! Text primitives: decimal numerals, trimming, splitting and searching.

use vstd::prelude::*;
use vstd::string::*;

verus! {

/// `String::push` appends one character at the end of the string.
pub assume_specification[ String::push ](s: &mut String, c: char)
    ensures
        final(s)@ == old(s)@.push(c),
;

// ---------------------------------------------------------------------------
// Decimal numerals
// ---------------------------------------------------------------------------

/// The character of a decimal digit.
pub open spec fn digit(d: nat) -> char {
    (48 + d) as char
}

/// The shortest decimal numeral of `n`.
pub open spec fn decimal(n: nat) -> Seq<char>
    decreases n,
{
    if n < 10 {
        seq![digit(n)]
    } else {
        decimal(n / 10).push(digit(n % 10))
    }
}

/// Appends the decimal numeral of `n` to `out`.
pub fn push_decimal(out: &mut String, n: u64)
    ensures
        final(out)@ == old(out)@ + decimal(n as nat),
    decreases n,
{
    if n >= 10 {
        push_decimal(out, n / 10);
    }
    let d: u8 = (n % 10) as u8;
    out.push((48 + d) as char);
}

/// Whether `c` is one of the ten decimal digits.
pub open spec fn is_digit(c: char) -> bool {
    '0' <= c <= '9'
}

/// Whether every character of `s` is a decimal digit.
pub open spec fn all_digits(s: Seq<char>) -> bool {
    forall|i: int| 0 <= i < s.len() ==> is_digit(#[trigger] s[i])
}

/// The number that a string of decimal digits denotes.
pub open spec fn numeral_value(s: Seq<char>) -> nat
    decreases s.len(),
{
    if s.len() == 0 {
        0
    } else {
        (numeral_value(s.drop_last()) * 10 + (s.last() as u32 - 48)) as nat
    }
}

/// What a textual port denotes: an optional plus sign and at least one digit, with a value
/// that fits in sixteen bits.
pub open spec fn port_number(s: Seq<char>) -> Option<u16> {
    let digits = if s.len() > 0 && s[0] == '+' {
        s.skip(1)
    } else {
        s
    };
    if digits.len() > 0 && all_digits(digits) && numeral_value(digits) <= 65535 {
        Some(numeral_value(digits) as u16)
    } else {
        None
    }
}

proof fn lemma_numeral_value_prefix(s: Seq<char>, k: int)
    requires
        0 <= k <= s.len(),
        all_digits(s),
    ensures
        numeral_value(s.take(k)) <= numeral_value(s),
    decreases s.len(),
{
    if k == s.len() {
        assert(s.take(k) =~= s);
    } else {
        assert(s.drop_last().take(k) =~= s.take(k));
        assert(all_digits(s.drop_last()));
        lemma_numeral_value_prefix(s.drop_last(), k);
        assert(is_digit(s[s.len() - 1]));
    }
}

/// Reads the port that `s[from..]` denotes.
pub fn parse_port(s: &Vec<char>, from: usize) -> (r: Option<u16>)
    requires
        from <= s@.len(),
    ensures
        r == port_number(s@.skip(from as int)),
{
    let ghost text = s@.skip(from as int);
    let mut start: usize = from;
    if from < s.len() && s[from] == '+' {
        start = from + 1;
    }
    let ghost digits = s@.skip(start as int);
    assert(digits =~= if text.len() > 0 && text[0] == '+' { text.skip(1) } else { text });
    if start == s.len() {
        return None;
    }
    let mut value: u32 = 0;
    let mut i: usize = start;
    while i < s.len()
        invariant
            start <= i <= s@.len(),
            digits == s@.skip(start as int),
            text == s@.skip(from as int),
            value <= 65535,
            value as nat == numeral_value(digits.take(i - start)),
            forall|j: int| 0 <= j < i - start ==> is_digit(#[trigger] digits[j]),
            port_number(text) == (if digits.len() > 0 && all_digits(digits) && numeral_value(digits)
                <= 65535 {
                Some(numeral_value(digits) as u16)
            } else {
                None::<u16>
            }),
        decreases s@.len() - i,
    {
        let c = s[i];
        assert(c == digits[i - start]);
        if c < '0' || c > '9' {
            assert(!is_digit(digits[i - start]));
            return None;
        }
        let d: u32 = (c as u32) - 48;
        proof {
            let grown = digits.take(i - start + 1);
            assert(grown.drop_last() =~= digits.take(i - start));
            assert(grown.last() == c);
        }
        value = value * 10 + d;
        if value > 65535 {
            proof {
                if all_digits(digits) {
                    lemma_numeral_value_prefix(digits, i - start + 1);
                }
            }
            return None;
        }
        i = i + 1;
    }
    assert(digits.take(i - start) =~= digits);
    assert(all_digits(digits));
    Some(value as u16)
}

proof fn lemma_decimal_digits(n: nat)
    ensures
        decimal(n).len() > 0,
        all_digits(decimal(n)),
        numeral_value(decimal(n)) == n,
    decreases n,
{
    reveal_with_fuel(numeral_value, 2);
    if n < 10 {
        assert(seq![digit(n)].drop_last() =~= Seq::<char>::empty());
    } else {
        lemma_decimal_digits(n / 10);
        assert(decimal(n).drop_last() =~= decimal(n / 10));
    }
}

/// Law: the decimal numeral of a port reads back as that port.
pub proof fn port_numeral_reads_back(port: u16)
    ensures
        port_number(decimal(port as nat)) == Some(port),
        all_digits(decimal(port as nat)),
        decimal(port as nat).len() > 0,
{
    lemma_decimal_digits(port as nat);
    let s = decimal(port as nat);
    assert(is_digit(s[0]));
}

// ---------------------------------------------------------------------------
// Characters and substrings
// ---------------------------------------------------------------------------

/// The characters of `s`, in order.
pub fn to_chars(s: &str) -> (r: Vec<char>)
    ensures
        r@ == s@,
{
    let mut v: Vec<char> = Vec::new();
    for c in it: s.chars()
        invariant
            v@ == it.seq().take(it.index() as int),
    {
        v.push(c);
    }
    v
}

/// The string made of `s[lo..hi]`.
pub fn substring(s: &Vec<char>, lo: usize, hi: usize) -> (r: String)
    requires
        lo <= hi <= s@.len(),
    ensures
        r@ == s@.subrange(lo as int, hi as int),
{
    let mut out = String::new();
    let mut i: usize = lo;
    while i < hi
        invariant
            lo <= i <= hi <= s@.len(),
            out@ == s@.subrange(lo as int, i as int),
        decreases hi - i,
    {
        out.push(s[i]);
        i = i + 1;
    }
    out
}

/// The string made of all of `s`.
pub fn from_chars(s: &Vec<char>) -> (r: String)
    ensures
        r@ == s@,
{
    let r = substring(s, 0, s.len());
    assert(s@.subrange(0, s@.len() as int) =~= s@);
    r
}

/// The characters of `s[lo..hi]`.
pub fn char_range(s: &Vec<char>, lo: usize, hi: usize) -> (r: Vec<char>)
    requires
        lo <= hi <= s@.len(),
    ensures
        r@ == s@.subrange(lo as int, hi as int),
{
    let mut out: Vec<char> = Vec::new();
    let mut i: usize = lo;
    while i < hi
        invariant
            lo <= i <= hi <= s@.len(),
            out@ == s@.subrange(lo as int, i as int),
        decreases hi - i,
    {
        out.push(s[i]);
        i = i + 1;
    }
    out
}

/// Whether `a` and `b` hold the same characters.
pub fn same_chars(a: &Vec<char>, b: &Vec<char>) -> (r: bool)
    ensures
        r == (a@ == b@),
{
    if a.len() != b.len() {
        return false;
    }
    let mut i: usize = 0;
    while i < a.len()
        invariant
            a@.len() == b@.len(),
            i <= a@.len(),
            forall|j: int| 0 <= j < i ==> a@[j] == b@[j],
        decreases a@.len() - i,
    {
        if a[i] != b[i] {
            return false;
        }
        i = i + 1;
    }
    assert(a@ =~= b@);
    true
}

/// Whether `s` starts with `prefix`.
pub open spec fn starts_with(s: Seq<char>, prefix: Seq<char>) -> bool {
    s.len() >= prefix.len() && s.take(prefix.len() as int) == prefix
}

/// Tests whether `s` starts with `prefix`.
pub fn has_prefix(s: &Vec<char>, prefix: &str) -> (r: bool)
    ensures
        r == starts_with(s@, prefix@),
{
    let p = to_chars(prefix);
    if s.len() < p.len() {
        return false;
    }
    let head = char_range(s, 0, p.len());
    assert(head@ =~= s@.take(p@.len() as int));
    same_chars(&head, &p)
}

/// The position of the first `c` in `s`.
pub open spec fn first_index(s: Seq<char>, c: char) -> Option<int>
    decreases s.len(),
{
    if s.len() == 0 {
        None
    } else if s[0] == c {
        Some(0)
    } else {
        match first_index(s.skip(1), c) {
            Some(i) => Some(i + 1),
            None => None,
        }
    }
}

/// The position of the last `c` in `s`.
pub open spec fn last_index(s: Seq<char>, c: char) -> Option<int>
    decreases s.len(),
{
    if s.len() == 0 {
        None
    } else if s.last() == c {
        Some(s.len() - 1)
    } else {
        last_index(s.drop_last(), c)
    }
}

/// `first_index` is the least position that holds the character.
pub proof fn first_index_is_least(s: Seq<char>, c: char)
    ensures
        match first_index(s, c) {
            Some(i) => 0 <= i < s.len() && s[i] == c && forall|j: int|
                0 <= j < i ==> s[j] != c,
            None => forall|j: int| 0 <= j < s.len() ==> s[j] != c,
        },
    decreases s.len(),
{
    if s.len() > 0 && s[0] != c {
        first_index_is_least(s.skip(1), c);
        assert(forall|j: int| 1 <= j < s.len() ==> s[j] == s.skip(1)[j - 1]);
    }
}

/// `last_index` is the greatest position that holds the character.
pub proof fn last_index_is_greatest(s: Seq<char>, c: char)
    ensures
        match last_index(s, c) {
            Some(i) => 0 <= i < s.len() && s[i] == c && forall|j: int|
                i < j < s.len() ==> s[j] != c,
            None => forall|j: int| 0 <= j < s.len() ==> s[j] != c,
        },
    decreases s.len(),
{
    if s.len() > 0 && s.last() != c {
        last_index_is_greatest(s.drop_last(), c);
        assert(forall|j: int| 0 <= j < s.len() - 1 ==> s[j] == s.drop_last()[j]);
    }
}

/// Finds the first `c` in `s`.
pub fn find_first(s: &Vec<char>, c: char) -> (r: Option<usize>)
    ensures
        match r {
            Some(i) => first_index(s@, c) == Some(i as int) && i < s@.len(),
            None => first_index(s@, c) is None,
        },
{
    proof {
        first_index_is_least(s@, c);
    }
    let mut i: usize = 0;
    while i < s.len()
        invariant
            i <= s@.len(),
            forall|j: int| 0 <= j < i ==> s@[j] != c,
            match first_index(s@, c) {
                Some(k) => 0 <= k < s.len() && s@[k] == c && forall|j: int|
                    0 <= j < k ==> s@[j] != c,
                None => forall|j: int| 0 <= j < s.len() ==> s@[j] != c,
            },
        decreases s@.len() - i,
    {
        if s[i] == c {
            return Some(i);
        }
        i = i + 1;
    }
    None
}

/// Finds the last `c` in `s`.
pub fn find_last(s: &Vec<char>, c: char) -> (r: Option<usize>)
    ensures
        match r {
            Some(i) => last_index(s@, c) == Some(i as int) && i < s@.len(),
            None => last_index(s@, c) is None,
        },
{
    proof {
        last_index_is_greatest(s@, c);
    }
    let mut i: usize = s.len();
    while i > 0
        invariant
            i <= s@.len(),
            forall|j: int| i <= j < s@.len() ==> s@[j] != c,
            match last_index(s@, c) {
                Some(k) => 0 <= k < s.len() && s@[k] == c && forall|j: int|
                    k < j < s.len() ==> s@[j] != c,
                None => forall|j: int| 0 <= j < s.len() ==> s@[j] != c,
            },
        decreases i,
    {
        i = i - 1;
        if s[i] == c {
            return Some(i);
        }
    }
    None
}

/// Whether `needle` occurs in `s`.
pub open spec fn has_substring(s: Seq<char>, needle: Seq<char>) -> bool {
    exists|i: int|
        0 <= i <= s.len() - needle.len() && #[trigger] s.subrange(i, i + needle.len()) == needle
}

/// Tests whether `needle` occurs in `s`.
pub fn contains_text(s: &Vec<char>, needle: &str) -> (r: bool)
    ensures
        r == has_substring(s@, needle@),
{
    let n = to_chars(needle);
    if s.len() < n.len() {
        return false;
    }
    let last: usize = s.len() - n.len();
    let mut i: usize = 0;
    loop
        invariant
            n@ == needle@,
            last + n.len() == s.len(),
            i <= last,
            forall|j: int| 0 <= j < i ==> #[trigger] s@.subrange(j, j + n@.len()) != n@,
        decreases last - i,
    {
        let part = char_range(s, i, i + n.len());
        if same_chars(&part, &n) {
            return true;
        }
        if i == last {
            return false;
        }
        i = i + 1;
    }
}

// ---------------------------------------------------------------------------
// Trimming and splitting
// ---------------------------------------------------------------------------

/// Whether `c` has the Unicode property White_Space.
pub open spec fn is_space(c: char) -> bool {
    let u = c as u32;
    ||| 0x09 <= u <= 0x0D
    ||| u == 0x20
    ||| u == 0x85
    ||| u == 0xA0
    ||| u == 0x1680
    ||| 0x2000 <= u <= 0x200A
    ||| u == 0x2028
    ||| u == 0x2029
    ||| u == 0x202F
    ||| u == 0x205F
    ||| u == 0x3000
}

/// Tests whether `c` has the Unicode property White_Space.
pub fn whitespace(c: char) -> (r: bool)
    ensures
        r == is_space(c),
{
    let u: u32 = c as u32;
    (0x09 <= u && u <= 0x0D) || u == 0x20 || u == 0x85 || u == 0xA0 || u == 0x1680 || (0x2000 <= u
        && u <= 0x200A) || u == 0x2028 || u == 0x2029 || u == 0x202F || u == 0x205F || u == 0x3000
}

/// The characters that a trim removes from both ends.
#[derive(Clone, Copy, Debug, PartialEq, Eq, Structural)]
pub enum TrimSet {
    Whitespace,
    Only(char),
}

impl TrimSet {
    /// Whether `c` is removed.
    pub open spec fn has(self, c: char) -> bool {
        match self {
            TrimSet::Whitespace => is_space(c),
            TrimSet::Only(only) => c == only,
        }
    }

    fn removes(&self, c: char) -> (r: bool)
        ensures
            r == self.has(c),
    {
        match self {
            TrimSet::Whitespace => whitespace(c),
            TrimSet::Only(only) => c == *only,
        }
    }
}

/// `s` without its leading characters of `set`.
pub open spec fn trim_start(s: Seq<char>, set: TrimSet) -> Seq<char>
    decreases s.len(),
{
    if s.len() > 0 && set.has(s[0]) {
        trim_start(s.skip(1), set)
    } else {
        s
    }
}

/// `s` without its trailing characters of `set`.
pub open spec fn trim_end(s: Seq<char>, set: TrimSet) -> Seq<char>
    decreases s.len(),
{
    if s.len() > 0 && set.has(s.last()) {
        trim_end(s.drop_last(), set)
    } else {
        s
    }
}

/// `s` without its leading and trailing characters of `set`.
pub open spec fn trim(s: Seq<char>, set: TrimSet) -> Seq<char> {
    trim_end(trim_start(s, set), set)
}

/// Removes the leading and trailing characters of `set`.
pub fn trim_chars(s: &Vec<char>, set: TrimSet) -> (r: Vec<char>)
    ensures
        r@ == trim(s@, set),
{
    let mut lo: usize = 0;
    assert(s@.skip(0) =~= s@);
    while lo < s.len() && set.removes(s[lo])
        invariant
            lo <= s@.len(),
            trim_start(s@, set) == trim_start(s@.skip(lo as int), set),
        ensures
            lo <= s@.len(),
            trim_start(s@, set) == s@.skip(lo as int),
        decreases s@.len() - lo,
    {
        assert(s@.skip(lo as int).skip(1) =~= s@.skip(lo + 1));
        lo = lo + 1;
    }
    let mut hi: usize = s.len();
    assert(s@.subrange(lo as int, hi as int) =~= s@.skip(lo as int));
    while hi > lo && set.removes(s[hi - 1])
        invariant
            lo <= hi <= s@.len(),
            trim(s@, set) == trim_end(s@.subrange(lo as int, hi as int), set),
        ensures
            lo <= hi <= s@.len(),
            trim(s@, set) == s@.subrange(lo as int, hi as int),
        decreases hi,
    {
        assert(s@.subrange(lo as int, hi as int).drop_last() =~= s@.subrange(lo as int, hi - 1));
        hi = hi - 1;
    }
    char_range(s, lo, hi)
}

/// The number of leading characters of `s` that are not white space.
pub open spec fn word_len(s: Seq<char>) -> nat
    decreases s.len(),
{
    if s.len() == 0 || is_space(s[0]) {
        0
    } else {
        1 + word_len(s.skip(1))
    }
}

/// The maximal runs of `s` without white space, in order.
pub open spec fn words(s: Seq<char>) -> Seq<Seq<char>>
    decreases s.len(),
{
    if s.len() == 0 {
        Seq::empty()
    } else if is_space(s[0]) {
        words(s.skip(1))
    } else if word_len(s) <= s.len() {
        seq![s.take(word_len(s) as int)] + words(s.skip(word_len(s) as int))
    } else {
        Seq::empty()
    }
}

proof fn lemma_word_len(s: Seq<char>)
    ensures
        word_len(s) <= s.len(),
        forall|i: int| 0 <= i < word_len(s) ==> !is_space(#[trigger] s[i]),
        word_len(s) < s.len() ==> is_space(s[word_len(s) as int]),
    decreases s.len(),
{
    if s.len() > 0 && !is_space(s[0]) {
        lemma_word_len(s.skip(1));
        assert forall|i: int| 0 <= i < word_len(s) implies !is_space(#[trigger] s[i]) by {
            if i > 0 {
                assert(s[i] == s.skip(1)[i - 1]);
            }
        }
    }
}

/// Words hold no white space.
pub proof fn words_hold_no_space(s: Seq<char>)
    ensures
        forall|k: int, i: int|
            0 <= k < words(s).len() && 0 <= i < words(s)[k].len() ==> !is_space(
                #[trigger] words(s)[k][i],
            ),
    decreases s.len(),
{
    if s.len() > 0 {
        if is_space(s[0]) {
            words_hold_no_space(s.skip(1));
            assert(words(s) == words(s.skip(1)));
        } else {
            lemma_word_len(s);
            let n = word_len(s) as int;
            let rest = s.skip(n);
            words_hold_no_space(rest);
            assert forall|k: int, i: int|
                0 <= k < words(s).len() && 0 <= i < words(s)[k].len() implies !is_space(
                #[trigger] words(s)[k][i],
            ) by {
                if k == 0 {
                    assert(words(s)[0] == s.take(n));
                    assert(words(s)[0][i] == s[i]);
                } else {
                    assert(words(s)[k] == words(rest)[k - 1]);
                    assert(!is_space(words(rest)[k - 1][i]));
                }
            }
        }
    }
}

/// A word before white space, or at the end, is the first word.
pub proof fn first_word(w: Seq<char>, rest: Seq<char>)
    requires
        w.len() > 0,
        forall|i: int| 0 <= i < w.len() ==> !is_space(#[trigger] w[i]),
        rest.len() == 0 || is_space(rest[0]),
    ensures
        words(w + rest) == seq![w] + words(rest),
{
    let s = w + rest;
    lemma_word_len(s);
    let n = word_len(s) as int;
    if n < w.len() {
        assert(is_space(s[n]));
        assert(s[n] == w[n]);
    }
    if n > w.len() {
        assert(s[w.len() as int] == rest[0]);
    }
    assert(s.take(n) =~= w);
    assert(s.skip(n) =~= rest);
}

/// A text between white space, with none at its ends, is what a trim leaves.
pub proof fn trimmed_between(s: Seq<char>, after: Seq<char>)
    requires
        s.len() > 0,
        !is_space(s[0]),
        !is_space(s.last()),
        forall|i: int| 0 <= i < after.len() ==> is_space(#[trigger] after[i]),
    ensures
        trim(s + after, TrimSet::Whitespace) == s,
    decreases after.len(),
{
    let all = s + after;
    assert(all[0] == s[0]);
    if after.len() == 0 {
        assert(all =~= s);
    } else {
        assert(all.last() == after.last());
        assert(all.drop_last() =~= s + after.drop_last());
        trimmed_between(s, after.drop_last());
        assert(all.drop_last()[0] == s[0]);
    }
}

/// Splits `s` at its white space.
pub fn split_words(s: &Vec<char>) -> (r: Vec<Vec<char>>)
    ensures
        r@.len() == words(s@).len(),
        forall|i: int| 0 <= i < r@.len() ==> (#[trigger] r@[i])@ == words(s@)[i],
{
    let mut out: Vec<Vec<char>> = Vec::new();
    let mut i: usize = 0;
    assert(s@.skip(0) =~= s@);
    while i < s.len()
        invariant
            i <= s@.len(),
            words(s@).len() == out@.len() + words(s@.skip(i as int)).len(),
            forall|k: int| 0 <= k < out@.len() ==> (#[trigger] out@[k])@ == words(s@)[k],
            forall|k: int|
                0 <= k < words(s@.skip(i as int)).len() ==> words(s@)[out@.len() + k]
                    == #[trigger] words(s@.skip(i as int))[k],
        decreases s@.len() - i,
    {
        let ghost rest = s@.skip(i as int);
        if whitespace(s[i]) {
            assert(rest.skip(1) =~= s@.skip(i + 1));
            i = i + 1;
        } else {
            let mut j: usize = i;
            proof {
                lemma_word_len(rest);
                assert(s@.skip(j as int) =~= rest);
            }
            while j < s.len() && !whitespace(s[j])
                invariant
                    i <= j <= s@.len(),
                    rest == s@.skip(i as int),
                    word_len(rest) == (j - i) + word_len(s@.skip(j as int)),
                ensures
                    i <= j <= s@.len(),
                    word_len(rest) == j - i,
                decreases s@.len() - j,
            {
                assert(s@.skip(j as int).skip(1) =~= s@.skip(j + 1));
                j = j + 1;
            }
            let word = char_range(s, i, j);
            proof {
                assert(j > i);
                assert(word@ =~= rest.take(j - i));
                assert(rest.skip(j - i) =~= s@.skip(j as int));
                assert(words(rest) == seq![word@] + words(s@.skip(j as int)));
                assert(words(s@)[out@.len() as int + 0] == words(rest)[0]);
                assert forall|k: int| 0 <= k < words(s@.skip(j as int)).len() implies words(
                    s@,
                )[out@.len() + 1 + k] == #[trigger] words(s@.skip(j as int))[k] by {
                    assert(words(rest)[k + 1] == words(s@.skip(j as int))[k]);
                    assert(words(s@)[out@.len() + (k + 1)] == words(rest)[k + 1]);
                }
            }
            out.push(word);
            i = j;
        }
    }
    out
}

/// The first line of `s`, without its line ending.
pub open spec fn first_line(s: Seq<char>) -> Seq<char> {
    match first_index(s, '\n') {
        Some(i) => if i > 0 && s[i - 1] == '\r' {
            s.take(i - 1)
        } else {
            s.take(i)
        },
        None => s,
    }
}

/// The first line of `s`, without its line ending.
pub fn take_first_line(s: &Vec<char>) -> (r: Vec<char>)
    ensures
        r@ == first_line(s@),
{
    match find_first(s, '\n') {
        Some(i) => {
            let end: usize = if i > 0 && s[i - 1] == '\r' {
                i - 1
            } else {
                i
            };
            let r = char_range(s, 0, end);
            assert(s@.subrange(0, end as int) =~= s@.take(end as int));
            r
        },
        None => {
            let r = char_range(s, 0, s.len());
            assert(s@.subrange(0, s@.len() as int) =~= s@);
            r
        },
    }
}

// ---------------------------------------------------------------------------
// Encodings and letter case
// ---------------------------------------------------------------------------

/// The text that ill-formed `bytes` decode to when each ill-formed part is replaced.
pub uninterp spec fn lossy_utf8(bytes: Seq<u8>) -> Seq<char>;

/// The text that `bytes` decode to: as they stand where they are well-formed UTF-8, with each
/// ill-formed part replaced otherwise.
pub open spec fn text_of_bytes(bytes: Seq<u8>) -> Seq<char> {
    if vstd::utf8::valid_utf8(bytes) {
        vstd::utf8::decode_utf8(bytes)
    } else {
        lossy_utf8(bytes)
    }
}

/// `String::from_utf8_lossy` decodes `bytes`, with a replacement character for each ill-formed
/// part: the result depends on the bytes alone, and well-formed bytes decode as they stand.
#[verifier::external_body]
pub(crate) fn decode_lossy(bytes: &[u8]) -> (r: String)
    ensures
        vstd::utf8::valid_utf8(bytes@) ==> r@ == vstd::utf8::decode_utf8(bytes@),
        !vstd::utf8::valid_utf8(bytes@) ==> r@ == lossy_utf8(bytes@),
{
    String::from_utf8_lossy(bytes).to_string()
}

/// Law: a text that is encoded decodes to itself.
pub proof fn encoded_text_decodes(s: Seq<char>)
    ensures
        text_of_bytes(vstd::utf8::encode_utf8(s)) == s,
{
    vstd::utf8::encode_utf8_valid_utf8(s);
    vstd::utf8::encode_utf8_decode_utf8(s);
}

/// The bytes of two texts one after the other.
pub proof fn encoding_of_both(a: Seq<char>, b: Seq<char>)
    ensures
        vstd::utf8::encode_utf8(a + b) == vstd::utf8::encode_utf8(a) + vstd::utf8::encode_utf8(b),
    decreases a.len(),
{
    if a.len() == 0 {
        assert(a + b =~= b);
        assert(vstd::utf8::encode_utf8(a) + vstd::utf8::encode_utf8(b)
            =~= vstd::utf8::encode_utf8(b));
    } else {
        assert((a + b).drop_first() =~= a.drop_first() + b);
        encoding_of_both(a.drop_first(), b);
        assert(vstd::utf8::encode_utf8(a + b) =~= vstd::utf8::encode_utf8(a)
            + vstd::utf8::encode_utf8(b));
    }
}

proof fn lemma_scalar_bytes(n: u32)
    ensures
        n < 0x80 ==> vstd::utf8::encode_scalar(n) == seq![n as u8],
        n >= 0x80 ==> forall|i: int|
            0 <= i < vstd::utf8::encode_scalar(n).len() ==> #[trigger] vstd::utf8::encode_scalar(
                n,
            )[i] >= 0x80,
{
    assert(n < 0x80 ==> (n & 0x7F) as u8 == n as u8) by (bit_vector);
    let a: u8 = ((n >> 6) & 0x1F) as u8;
    let b: u8 = ((n >> 12) & 0x0F) as u8;
    let c: u8 = ((n >> 18) & 0x7) as u8;
    let d: u8 = (n & 0x3F) as u8;
    let e: u8 = ((n >> 6) & 0x3F) as u8;
    let f: u8 = ((n >> 12) & 0x3F) as u8;
    assert(0xC0u8 | a >= 0x80) by (bit_vector);
    assert(0xE0u8 | b >= 0x80) by (bit_vector);
    assert(0xF0u8 | c >= 0x80) by (bit_vector);
    assert(0x80u8 | d >= 0x80) by (bit_vector);
    assert(0x80u8 | e >= 0x80) by (bit_vector);
    assert(0x80u8 | f >= 0x80) by (bit_vector);
}

/// The byte of an ASCII character.
pub proof fn encoding_of_ascii(c: char)
    requires
        (c as u32) < 0x80,
    ensures
        vstd::utf8::encode_utf8(seq![c]) == seq![c as u8],
{
    lemma_scalar_bytes(c as u32);
    assert(seq![c].drop_first() =~= Seq::empty());
    reveal_with_fuel(vstd::utf8::encode_utf8, 2);
    assert(vstd::utf8::encode_utf8(seq![c]) =~= seq![c as u8]);
}

/// A text without some ASCII character has no byte of it.
pub proof fn encoding_without(s: Seq<char>, b: u8)
    requires
        b < 0x80,
        forall|i: int| 0 <= i < s.len() ==> #[trigger] s[i] as u32 != b,
    ensures
        !vstd::utf8::encode_utf8(s).contains(b),
    decreases s.len(),
{
    if s.len() > 0 {
        let rest = s.drop_first();
        let head = vstd::utf8::encode_scalar(s[0] as u32);
        let tail = vstd::utf8::encode_utf8(rest);
        lemma_scalar_bytes(s[0] as u32);
        encoding_without(rest, b);
        if vstd::utf8::encode_utf8(s).contains(b) {
            let all = head + tail;
            let i = choose|i: int| 0 <= i < all.len() && all[i] == b;
            if i >= head.len() {
                assert(tail[i - head.len()] == b);
            }
        }
    }
}

/// A text has at least as many bytes as characters.
pub proof fn encoding_is_not_shorter(s: Seq<char>)
    ensures
        vstd::utf8::encode_utf8(s).len() >= s.len(),
    decreases s.len(),
{
    if s.len() > 0 {
        encoding_is_not_shorter(s.drop_first());
    }
}

/// The upper case of an ASCII letter; every other character as it is.
pub open spec fn ascii_upper(c: char) -> char {
    if 'a' <= c <= 'z' {
        (c as u32 - 32) as char
    } else {
        c
    }
}

/// The upper case, by the Unicode tables, of a text that is not all ASCII.
pub uninterp spec fn unicode_upper(s: Seq<char>) -> Seq<char>;

/// The upper case of a text.
pub open spec fn upper_text(s: Seq<char>) -> Seq<char> {
    if vstd::utf8::is_ascii_chars(s) {
        s.map_values(|c: char| ascii_upper(c))
    } else {
        unicode_upper(s)
    }
}

/// `str::to_uppercase` maps a text to its upper case: the result depends on the text alone, and
/// in a text of ASCII characters just the letters change.
#[verifier::external_body]
pub(crate) fn to_upper(s: &str) -> (r: String)
    ensures
        vstd::utf8::is_ascii_chars(s@) ==> r@ == s@.map_values(|c: char| ascii_upper(c)),
        !vstd::utf8::is_ascii_chars(s@) ==> r@ == unicode_upper(s@),
{
    s.to_uppercase()
}

/// The lower case of a text by the Unicode tables.
pub uninterp spec fn unicode_lower(s: Seq<char>) -> Seq<char>;

/// `str::to_lowercase` maps a text to its lower case: the result depends on the text alone.
#[verifier::external_body]
pub(crate) fn to_lower(s: &str) -> (r: String)
    ensures
        r@ == unicode_lower(s@),
{
    s.to_lowercase()
}

/// Law: the numeral of a number has no sign and no leading zero, and its digits make up the
/// number: the last one is the remainder by ten, those before it are the numeral of the tenth.
pub proof fn numerals_are_decimal(n: nat)
    ensures
        all_digits(decimal(n)),
        decimal(n).len() > 0,
        decimal(n).last() as u32 == 48 + n % 10,
        n < 10 ==> decimal(n).len() == 1,
        n >= 10 ==> decimal(n).drop_last() == decimal(n / 10),
        n > 0 ==> decimal(n)[0] != '0',
    decreases n,
{
    lemma_decimal_digits(n);
    if n >= 10 {
        assert(decimal(n).drop_last() =~= decimal(n / 10));
        numerals_are_decimal(n / 10);
        assert(decimal(n)[0] == decimal(n / 10)[0]);
    }
}

/// Law: numbers with the same numeral are the same.
pub proof fn numerals_tell_apart(a: nat, b: nat)
    requires
        decimal(a) == decimal(b),
    ensures
        a == b,
{
    lemma_decimal_digits(a);
    lemma_decimal_digits(b);
}

/// Law: every row of digits whose number fits a port is a port, leading zeros and a plus sign
/// aside; and nothing else is one.
pub proof fn ports_are_read_by_their_digits(s: Seq<char>, port: u16)
    ensures
        port_number(Seq::empty()) is None,
        port_number(seq!['+']) is None,
        s.len() > 0 && s[0] != '+' ==> port_number(seq!['+'] + s) == port_number(s),
        port_number(s) == Some(port) ==> port_number(seq!['0'] + s) == Some(port) || s[0] == '+',
        port_number(decimal(port as nat)) == Some(port),
        (exists|i: int| 0 < i < s.len() && !('0' <= s[i] && s[i] <= '9')) ==> port_number(
            s,
        ) is None,
        s.len() > 0 && s[0] != '+' && !('0' <= s[0] && s[0] <= '9') ==> port_number(s) is None,
{
    port_numeral_reads_back(port);
    let plus = seq!['+'] + s;
    assert(plus.skip(1) =~= s);
    assert(seq!['+'].skip(1) =~= Seq::<char>::empty());
    if exists|i: int| 0 < i < s.len() && !('0' <= s[i] && s[i] <= '9') {
        let i = choose|i: int| 0 < i < s.len() && !('0' <= s[i] && s[i] <= '9');
        assert(!is_digit(s[i]));
        if s[0] == '+' {
            assert(s.skip(1)[i - 1] == s[i]);
        }
    }
    if s.len() > 0 && !('0' <= s[0] && s[0] <= '9') {
        assert(!is_digit(s[0]));
    }
    if port_number(s) == Some(port) && s[0] != '+' {
        let zero = seq!['0'] + s;
        lemma_leading_zero(s);
        assert(all_digits(zero)) by {
            assert forall|i: int| 0 <= i < zero.len() implies is_digit(#[trigger] zero[i]) by {
                if i > 0 {
                    assert(zero[i] == s[i - 1]);
                }
            }
        }
    }
}

proof fn lemma_leading_zero(s: Seq<char>)
    ensures
        numeral_value(seq!['0'] + s) == numeral_value(s),
    decreases s.len(),
{
    reveal_with_fuel(numeral_value, 2);
    let zero = seq!['0'] + s;
    if s.len() == 0 {
        assert(zero.drop_last() =~= Seq::<char>::empty());
        assert(zero.last() == '0');
    } else {
        assert(zero.drop_last() =~= seq!['0'] + s.drop_last());
        assert(zero.last() == s.last());
        lemma_leading_zero(s.drop_last());
    }
}

/// Law: a numeral of a number that does not fit a port is none.
pub proof fn large_numbers_are_no_ports(n: nat)
    requires
        n > 65535,
    ensures
        port_number(decimal(n)) is None,
{
    lemma_decimal_digits(n);
    assert(is_digit(decimal(n)[0]));
}

/// Law: what a trim leaves stands in the text between characters of the set, and neither starts
/// nor ends with one.
pub proof fn trim_takes_the_ends_alone(s: Seq<char>, set: TrimSet)
    ensures
        exists|lo: int, hi: int|
            #![trigger s.subrange(lo, hi)]
            0 <= lo <= hi <= s.len() && trim(s, set) == s.subrange(lo, hi) && (forall|i: int|
                0 <= i < lo || hi <= i < s.len() ==> set.has(#[trigger] s[i])),
        trim(s, set).len() > 0 ==> !set.has(trim(s, set)[0]) && !set.has(trim(s, set).last()),
{
    lemma_trim_start(s, set);
    let lo = (s.len() - trim_start(s, set).len()) as int;
    let mid = trim_start(s, set);
    lemma_trim_end(mid, set);
    let n = trim_end(mid, set).len() as int;
    let hi = lo + n;
    assert(trim(s, set) =~= s.subrange(lo, hi));
    assert forall|i: int| 0 <= i < lo || hi <= i < s.len() implies set.has(#[trigger] s[i]) by {
        if i >= hi {
            assert(mid[i - lo] == s[i]);
        }
    }
    if n > 0 {
        assert(trim(s, set)[0] == mid[0]);
    }
}

proof fn lemma_trim_start(s: Seq<char>, set: TrimSet)
    ensures
        trim_start(s, set).len() <= s.len(),
        trim_start(s, set) == s.skip(s.len() - trim_start(s, set).len()),
        forall|i: int|
            0 <= i < s.len() - trim_start(s, set).len() ==> set.has(#[trigger] s[i]),
        trim_start(s, set).len() > 0 ==> !set.has(trim_start(s, set)[0]),
    decreases s.len(),
{
    if s.len() > 0 && set.has(s[0]) {
        let rest = s.skip(1);
        lemma_trim_start(rest, set);
        let n = (s.len() - trim_start(s, set).len()) as int;
        assert(rest.skip(n - 1) =~= s.skip(n));
        assert forall|i: int| 0 <= i < n implies set.has(#[trigger] s[i]) by {
            if i > 0 {
                assert(rest[i - 1] == s[i]);
            }
        }
    } else {
        assert(s.skip(0) =~= s);
    }
}

proof fn lemma_trim_end(s: Seq<char>, set: TrimSet)
    ensures
        trim_end(s, set).len() <= s.len(),
        trim_end(s, set) == s.take(trim_end(s, set).len() as int),
        forall|i: int| trim_end(s, set).len() <= i < s.len() ==> set.has(#[trigger] s[i]),
        trim_end(s, set).len() > 0 ==> !set.has(trim_end(s, set).last()),
    decreases s.len(),
{
    if s.len() > 0 && set.has(s.last()) {
        let rest = s.drop_last();
        lemma_trim_end(rest, set);
        let n = trim_end(s, set).len() as int;
        assert(rest.take(n) =~= s.take(n));
        assert forall|i: int| n <= i < s.len() implies set.has(#[trigger] s[i]) by {
            if i < rest.len() {
                assert(rest[i] == s[i]);
            }
        }
    } else {
        assert(s.take(s.len() as int) =~= s);
    }
}

/// Law: what stands between white space, or between characters of one kind, is what a trim leaves
/// of it, however much is around it.
pub proof fn surroundings_are_trimmed(
    before: Seq<char>,
    s: Seq<char>,
    after: Seq<char>,
    set: TrimSet,
)
    requires
        s.len() > 0,
        !set.has(s[0]),
        !set.has(s.last()),
        forall|i: int| 0 <= i < before.len() ==> set.has(#[trigger] before[i]),
        forall|i: int| 0 <= i < after.len() ==> set.has(#[trigger] after[i]),
    ensures
        trim(before + s + after, set) == s,
    decreases before.len() + after.len(),
{
    let all = before + s + after;
    if before.len() > 0 {
        assert(all[0] == before[0]);
        assert(all.skip(1) =~= before.skip(1) + s + after);
        surroundings_are_trimmed(before.skip(1), s, after, set);
    } else {
        assert(all[0] == s[0]);
        if after.len() > 0 {
            assert(all.last() == after.last());
            assert(all.drop_last() =~= before + s + after.drop_last());
            surroundings_are_trimmed(before, s, after.drop_last(), set);
            assert(all.drop_last()[0] == s[0]);
        } else {
            assert(all =~= s);
        }
    }
}

/// Law: white space is what Unicode says it is; in ASCII that is the space, the tab and the line
/// breaks.
pub proof fn ascii_white_space(c: char)
    requires
        (c as u32) < 0x80,
    ensures
        is_space(c) <==> c == ' ' || c == '\t' || c == '\n' || c == '\r' || c as u32 == 0x0B
            || c as u32 == 0x0C,
        TrimSet::Whitespace.has(c) == is_space(c),
        forall|only: char| TrimSet::Only(only).has(c) == (only == c),
{
}

/// Law: white space around words, and its amount, do not matter to what the words are.
pub proof fn words_are_split_at_white_space(word: Seq<char>, gap: Seq<char>, rest: Seq<char>)
    requires
        word.len() > 0,
        forall|i: int| 0 <= i < word.len() ==> !is_space(#[trigger] word[i]),
        gap.len() > 0,
        forall|i: int| 0 <= i < gap.len() ==> is_space(#[trigger] gap[i]),
    ensures
        words(word + gap + rest) == seq![word] + words(rest),
        words(gap + rest) == words(rest),
        words(word) == seq![word],
{
    let tail = gap + rest;
    assert(word + gap + rest =~= word + tail);
    assert(tail[0] == gap[0]);
    first_word(word, tail);
    lemma_gap(gap, rest);
    let none = Seq::<char>::empty();
    first_word(word, none);
    assert(word + none =~= word);
    assert(words(none) =~= Seq::<Seq<char>>::empty());
    assert(seq![word] + words(none) =~= seq![word]);
}

proof fn lemma_gap(gap: Seq<char>, rest: Seq<char>)
    requires
        forall|i: int| 0 <= i < gap.len() ==> is_space(#[trigger] gap[i]),
    ensures
        words(gap + rest) == words(rest),
    decreases gap.len(),
{
    let all = gap + rest;
    if gap.len() == 0 {
        assert(all =~= rest);
    } else {
        assert(all[0] == gap[0]);
        assert(all.skip(1) =~= gap.skip(1) + rest);
        lemma_gap(gap.skip(1), rest);
    }
}

/// Law: the first line is what stands before the first newline, without a carriage return before
/// that.
pub proof fn first_line_ends_at_the_newline(line: Seq<char>, rest: Seq<char>)
    requires
        !line.contains('\n'),
    ensures
        first_line(line + seq!['\r', '\n'] + rest) == line,
        line.len() == 0 || line.last() != '\r' ==> first_line(line + seq!['\n'] + rest) == line,
        first_line(line) == line,
{
    let n = line.len() as int;
    let a = line + seq!['\r', '\n'] + rest;
    let b = line + seq!['\n'] + rest;
    first_index_is_least(a, '\n');
    first_index_is_least(b, '\n');
    first_index_is_least(line, '\n');
    assert forall|j: int| 0 <= j < n implies line[j] != '\n' by {
        assert(line.contains(line[j]));
    }
    assert(forall|j: int| 0 <= j < n ==> a[j] == line[j] && b[j] == line[j]);
    assert(a[n] == '\r' && a[n + 1] == '\n');
    assert(b[n] == '\n');
    assert(a.take(n) =~= line);
    assert(b.take(n) =~= line);
    if n > 0 {
        assert(b[n - 1] == line.last());
    }
}

/// Law: an ASCII text in upper case has its letters in upper case and the rest as it was.
pub proof fn upper_case_changes_small_letters_alone(s: Seq<char>, i: int)
    requires
        vstd::utf8::is_ascii_chars(s),
        0 <= i < s.len(),
    ensures
        upper_text(s).len() == s.len(),
        'a' <= s[i] <= 'z' ==> upper_text(s)[i] as u32 + 32 == s[i] as u32,
        !('a' <= s[i] <= 'z') ==> upper_text(s)[i] == s[i],
{
    assert('\0' <= s[i] <= '\u{7f}');
}

/// Law: a text starts with another just where it has the characters of that first.
pub proof fn prefixes_stand_first(s: Seq<char>, prefix: Seq<char>, rest: Seq<char>)
    ensures
        starts_with(prefix + rest, prefix),
        starts_with(s, prefix) <==> s.len() >= prefix.len() && forall|i: int|
            0 <= i < prefix.len() ==> s[i] == #[trigger] prefix[i],
{
    assert((prefix + rest).take(prefix.len() as int) =~= prefix);
    if starts_with(s, prefix) {
        assert forall|i: int| 0 <= i < prefix.len() implies s[i] == #[trigger] prefix[i] by {
            assert(s.take(prefix.len() as int)[i] == s[i]);
        }
    } else if s.len() >= prefix.len() && forall|i: int|
        0 <= i < prefix.len() ==> s[i] == #[trigger] prefix[i] {
        assert(s.take(prefix.len() as int) =~= prefix);
    }
}

/// Law: a text occurs in another just where that is it with something before it and something
/// behind it.
pub proof fn substrings_stand_between(s: Seq<char>, needle: Seq<char>)
    ensures
        forall|before: Seq<char>, after: Seq<char>|
            has_substring(#[trigger] (before + needle + after), needle),
        has_substring(s, needle) ==> exists|before: Seq<char>, after: Seq<char>|
            s == #[trigger] (before + needle + after),
{
    assert forall|before: Seq<char>, after: Seq<char>|
        has_substring(#[trigger] (before + needle + after), needle) by {
        let all = before + needle + after;
        let i = before.len() as int;
        assert(all.subrange(i, i + needle.len()) =~= needle);
    }
    if has_substring(s, needle) {
        let i = choose|i: int|
            0 <= i <= s.len() - needle.len() && #[trigger] s.subrange(i, i + needle.len())
                == needle;
        let before = s.take(i);
        let after = s.skip(i + needle.len());
        assert(s =~= before + s.subrange(i, i + needle.len()) + after);
        assert(s == before + needle + after);
    }
}

} // verus!
