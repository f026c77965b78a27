//! Destination patterns and the matcher of a forwarding rule.

use crate::net;
use crate::net::{cidr_contains, parse_cidr, parse_ip, Cidr, IpAddr};
use crate::text;
use crate::text::{find_first, to_chars};
use vstd::prelude::*;
use vstd::string::*;

verus! {

/// Whether a text matches a wildcard pattern as a whole: `*` stands for any run of characters,
/// the empty one included, `?` for exactly one character, and every other character for itself.
pub open spec fn wildcard_matches(pattern: Seq<char>, text: Seq<char>) -> bool
    decreases pattern.len(), text.len(),
{
    if pattern.len() == 0 {
        text.len() == 0
    } else if pattern[0] == '*' {
        ||| wildcard_matches(pattern.skip(1), text)
        ||| text.len() > 0 && wildcard_matches(pattern, text.skip(1))
    } else {
        &&& text.len() > 0
        &&& pattern[0] == '?' || pattern[0] == text[0]
        &&& wildcard_matches(pattern.skip(1), text.skip(1))
    }
}

/// `WildMatch::matches` of the crate `wildmatch`, on `WildMatch::new(pattern)`, tells whether the
/// pattern matches the whole of the text; letter case counts and nothing escapes a wildcard.
#[verifier::external_body]
fn wildmatch(pattern: &str, text: &str) -> (r: bool)
    ensures
        r == wildcard_matches(pattern@, text@),
{
    wildmatch::WildMatch::new(pattern).matches(text)
}

/// What one pattern of a rule selects.
#[derive(Debug)]
pub enum Pattern {
    Domain(String),
    Ip(IpAddr),
    Cidr(Cidr),
}

impl Clone for Pattern {
    fn clone(&self) -> (r: Pattern)
        ensures
            r@ == self@,
    {
        match self {
            Pattern::Domain(d) => Pattern::Domain(d.clone()),
            Pattern::Ip(ip) => Pattern::Ip(*ip),
            Pattern::Cidr(net) => Pattern::Cidr(*net),
        }
    }
}

/// The model of a pattern.
pub enum PatternView {
    Domain(Seq<char>),
    Ip(IpAddr),
    Cidr(Cidr),
}

impl View for Pattern {
    type V = PatternView;

    open spec fn view(&self) -> PatternView {
        match self {
            Pattern::Domain(d) => PatternView::Domain(d@),
            Pattern::Ip(ip) => PatternView::Ip(*ip),
            Pattern::Cidr(net) => PatternView::Cidr(*net),
        }
    }
}

impl PatternView {
    /// Whether the pattern selects a destination with this host name and, where it is known, this
    /// address.
    pub open spec fn selects(self, host: Seq<char>, ip: Option<IpAddr>) -> bool {
        match self {
            PatternView::Domain(d) => wildcard_matches(d, host),
            PatternView::Ip(p) => ip == Some(p),
            PatternView::Cidr(net) => ip is Some && net.covers(ip->0),
        }
    }

    /// Whether an address range has a prefix that fits its family.
    pub open spec fn wf(self) -> bool {
        self matches PatternView::Cidr(net) ==> net.wf()
    }
}

/// The pattern that a text stands for, given what the text denotes as an address range and as an
/// address: a text with a slash is a range or nothing, any other text an address or a domain.
pub open spec fn pattern_kind(
    text: Seq<char>,
    net: Option<Cidr>,
    ip: Option<IpAddr>,
) -> Option<PatternView> {
    if text.contains('/') {
        match net {
            Some(net) => Some(PatternView::Cidr(net)),
            None => None,
        }
    } else {
        match ip {
            Some(ip) => Some(PatternView::Ip(ip)),
            None => Some(PatternView::Domain(text)),
        }
    }
}

/// The pattern that a text stands for.
pub open spec fn pattern_of(text: Seq<char>) -> Option<PatternView> {
    pattern_kind(text, net::cidr_syntax(text), net::ip_syntax(text))
}

/// The patterns that a list of texts stands for; a text that stands for none is passed over.
pub open spec fn patterns_of(texts: Seq<Seq<char>>) -> Seq<PatternView>
    decreases texts.len(),
{
    if texts.len() == 0 {
        Seq::empty()
    } else {
        let head = patterns_of(texts.drop_last());
        match pattern_of(texts.last()) {
            Some(p) => head.push(p),
            None => head,
        }
    }
}

/// Whether one of the patterns selects the destination.
pub open spec fn any_selects(
    patterns: Seq<PatternView>,
    host: Seq<char>,
    ip: Option<IpAddr>,
) -> bool {
    exists|i: int| 0 <= i < patterns.len() && (#[trigger] patterns[i]).selects(host, ip)
}

/// The texts of a list of strings.
pub open spec fn texts_of(strings: Seq<String>) -> Seq<Seq<char>> {
    strings.map_values(|s: String| s@)
}

/// The destinations that one rule selects.
pub struct RuleMatcher {
    patterns: Vec<Pattern>,
}

impl Clone for RuleMatcher {
    fn clone(&self) -> (r: RuleMatcher)
        ensures
            r@ == self@,
    {
        proof {
            use_type_invariant(self);
        }
        let mut patterns: Vec<Pattern> = Vec::new();
        let mut i: usize = 0;
        while i < self.patterns.len()
            invariant
                i <= self.patterns@.len(),
                patterns@.len() == i,
                forall|k: int|
                    0 <= k < self.patterns@.len() ==> (#[trigger] self.patterns@[k])@.wf(),
                forall|k: int| 0 <= k < i ==> (#[trigger] patterns@[k])@ == self.patterns@[k]@,
            decreases self.patterns@.len() - i,
        {
            patterns.push(self.patterns[i].clone());
            i = i + 1;
        }
        let r = RuleMatcher { patterns };
        assert(r@ =~= self@);
        r
    }
}

impl View for RuleMatcher {
    type V = Seq<PatternView>;

    closed spec fn view(&self) -> Seq<PatternView> {
        self.patterns@.map_values(|p: Pattern| p@)
    }
}

/// Tells what a pattern text stands for, given what it denotes as an address range and as an
/// address.
pub fn classify_pattern(pattern: String, net: Option<Cidr>, ip: Option<IpAddr>) -> (r: Option<
    Pattern,
>)
    ensures
        match r {
            Some(p) => pattern_kind(pattern@, net, ip) == Some(p@),
            None => pattern_kind(pattern@, net, ip) is None,
        },
{
    let chars = to_chars(pattern.as_str());
    proof {
        text::first_index_is_least(pattern@, '/');
    }
    if find_first(&chars, '/').is_some() {
        match net {
            Some(net) => Some(Pattern::Cidr(net)),
            None => None,
        }
    } else {
        match ip {
            Some(ip) => Some(Pattern::Ip(ip)),
            None => Some(Pattern::Domain(pattern)),
        }
    }
}

impl RuleMatcher {
    /// Every address range has a prefix that fits its family.
    #[verifier::type_invariant]
    spec fn wf(self) -> bool {
        forall|i: int| 0 <= i < self.patterns@.len() ==> (#[trigger] self.patterns@[i])@.wf()
    }

    /// Makes the matcher of a list of pattern texts.
    pub fn new(patterns: Vec<String>) -> (r: RuleMatcher)
        ensures
            r@ == patterns_of(texts_of(patterns@)),
    {
        let mut parsed: Vec<Pattern> = Vec::new();
        let mut i: usize = 0;
        let ghost texts = texts_of(patterns@);
        assert(parsed@.map_values(|p: Pattern| p@) =~= patterns_of(texts.take(0)));
        while i < patterns.len()
            invariant
                i <= patterns@.len(),
                texts == texts_of(patterns@),
                parsed@.map_values(|p: Pattern| p@) == patterns_of(texts.take(i as int)),
                forall|k: int| 0 <= k < parsed@.len() ==> (#[trigger] parsed@[k])@.wf(),
            decreases patterns@.len() - i,
        {
            let ghost before = parsed@;
            proof {
                assert(texts.take(i + 1).drop_last() =~= texts.take(i as int));
                assert(texts.take(i + 1).last() == patterns@[i as int]@);
            }
            if let Some(p) = Self::parse_pattern(patterns[i].clone()) {
                parsed.push(p);
                assert(parsed@.map_values(|p: Pattern| p@) =~= before.map_values(
                    |p: Pattern| p@,
                ).push(p@));
            }
            i = i + 1;
        }
        assert(texts.take(i as int) =~= texts);
        RuleMatcher { patterns: parsed }
    }

    fn parse_pattern(pattern: String) -> (r: Option<Pattern>)
        ensures
            match r {
                Some(p) => pattern_of(pattern@) == Some(p@) && p@.wf(),
                None => pattern_of(pattern@) is None,
            },
    {
        let net = parse_cidr(pattern.as_str());
        let ip = parse_ip(pattern.as_str());
        classify_pattern(pattern, net, ip)
    }

    /// Whether one of the patterns selects the destination.
    pub fn matches(&self, host: &str, ip: Option<IpAddr>) -> (r: bool)
        ensures
            r == any_selects(self@, host@, ip),
    {
        proof {
            use_type_invariant(self);
        }
        let mut i: usize = 0;
        while i < self.patterns.len()
            invariant
                i <= self.patterns@.len(),
                self.wf(),
                forall|k: int| 0 <= k < i ==> !(#[trigger] self@[k]).selects(host@, ip),
            decreases self.patterns@.len() - i,
        {
            assert(self@[i as int] == self.patterns@[i as int]@);
            if Self::match_pattern(&self.patterns[i], host, ip) {
                return true;
            }
            i = i + 1;
        }
        false
    }

    fn match_pattern(pattern: &Pattern, host: &str, ip: Option<IpAddr>) -> (r: bool)
        requires
            pattern@.wf(),
        ensures
            r == pattern@.selects(host@, ip),
    {
        match pattern {
            Pattern::Domain(d) => wildmatch(d.as_str(), host),
            Pattern::Ip(p) => match ip {
                Some(ip) => ip.same(p),
                None => false,
            },
            Pattern::Cidr(net) => match ip {
                Some(ip) => cidr_contains(net, &ip),
                None => false,
            },
        }
    }
}

// ---------------------------------------------------------------------------
// Laws
// ---------------------------------------------------------------------------

/// Law: a text without wildcards matches as a pattern just itself.
pub proof fn plain_pattern_matches_itself(pattern: Seq<char>, text: Seq<char>)
    requires
        !pattern.contains('*'),
        !pattern.contains('?'),
    ensures
        wildcard_matches(pattern, text) == (pattern == text),
    decreases pattern.len(),
{
    if pattern.len() == 0 {
        assert(text.len() == 0 ==> text =~= pattern);
    } else {
        assert(pattern[0] != '*' && pattern[0] != '?');
        let rest = pattern.skip(1);
        assert forall|c: char| rest.contains(c) implies pattern.contains(c) by {
            let i = choose|i: int| 0 <= i < rest.len() && rest[i] == c;
            assert(pattern[i + 1] == c);
        }
        if text.len() > 0 {
            plain_pattern_matches_itself(rest, text.skip(1));
            if pattern[0] == text[0] && rest == text.skip(1) {
                assert(pattern =~= seq![pattern[0]] + rest);
                assert(text =~= seq![text[0]] + text.skip(1));
            }
        }
    }
}

/// Law: a star before a text without wildcards matches just the texts that end in it. So
/// `*.google.com` matches every name below `google.com`, and not `google.com` itself.
pub proof fn star_pattern_matches_suffix(suffix: Seq<char>, text: Seq<char>)
    requires
        !suffix.contains('*'),
        !suffix.contains('?'),
    ensures
        wildcard_matches(seq!['*'] + suffix, text) == (text.len() >= suffix.len() && text.skip(
            text.len() - suffix.len(),
        ) == suffix),
    decreases text.len(),
{
    let pattern = seq!['*'] + suffix;
    assert(pattern.skip(1) =~= suffix);
    plain_pattern_matches_itself(suffix, text);
    if text.len() == 0 {
        assert(text.skip(0) =~= text);
    } else {
        star_pattern_matches_suffix(suffix, text.skip(1));
        if text.len() > suffix.len() {
            assert(text.skip(1).skip(text.len() - 1 - suffix.len()) =~= text.skip(
                text.len() - suffix.len(),
            ));
        } else if text.len() == suffix.len() {
            assert(text.skip(0) =~= text);
        }
    }
}

/// Law: the matcher of two lists one after the other selects what the first or the second list
/// selects.
pub proof fn patterns_select_independently(
    a: Seq<Seq<char>>,
    b: Seq<Seq<char>>,
    host: Seq<char>,
    ip: Option<IpAddr>,
)
    ensures
        any_selects(patterns_of(a + b), host, ip) == (any_selects(patterns_of(a), host, ip)
            || any_selects(patterns_of(b), host, ip)),
{
    lemma_patterns_concat(a, b);
    let pa = patterns_of(a);
    let pb = patterns_of(b);
    let all = pa + pb;
    if any_selects(all, host, ip) {
        let i = choose|i: int| 0 <= i < all.len() && (#[trigger] all[i]).selects(host, ip);
        if i < pa.len() {
            assert(pa[i].selects(host, ip));
        } else {
            assert(pb[i - pa.len()].selects(host, ip));
        }
    }
    if any_selects(pa, host, ip) {
        let i = choose|i: int| 0 <= i < pa.len() && (#[trigger] pa[i]).selects(host, ip);
        assert(all[i].selects(host, ip));
    }
    if any_selects(pb, host, ip) {
        let i = choose|i: int| 0 <= i < pb.len() && (#[trigger] pb[i]).selects(host, ip);
        assert(all[i + pa.len()].selects(host, ip));
    }
}

proof fn lemma_patterns_concat(a: Seq<Seq<char>>, b: Seq<Seq<char>>)
    ensures
        patterns_of(a + b) == patterns_of(a) + patterns_of(b),
    decreases b.len(),
{
    if b.len() == 0 {
        assert(a + b =~= a);
        assert(patterns_of(a) + patterns_of(b) =~= patterns_of(a));
    } else {
        assert((a + b).drop_last() =~= a + b.drop_last());
        lemma_patterns_concat(a, b.drop_last());
        match pattern_of(b.last()) {
            Some(p) => {
                assert((patterns_of(a) + patterns_of(b.drop_last())).push(p) =~= patterns_of(a)
                    + patterns_of(b));
            },
            None => {},
        }
    }
}

/// Law: a destination whose address is not known is selected by domain patterns alone.
pub proof fn unknown_address_needs_a_domain(pattern: PatternView, host: Seq<char>)
    ensures
        pattern.selects(host, None) == (pattern matches PatternView::Domain(d) && wildcard_matches(
            d,
            host,
        )),
{
}

/// The number of bits of an address.
pub open spec fn address_bits(ip: IpAddr) -> u8 {
    match ip {
        IpAddr::V4(_) => 32,
        IpAddr::V6(_) => 128,
    }
}

/// Law: a range with a full-length prefix holds its own address alone, and a range with an empty
/// prefix every address of its family.
pub proof fn prefix_length_extremes(a: IpAddr, b: IpAddr)
    ensures
        (Cidr { addr: a, prefix_len: address_bits(a) }).covers(b) == (a == b),
        (Cidr { addr: a, prefix_len: 0 }).covers(b) == (address_bits(a) == address_bits(b)),
{
    vstd::arithmetic::power2::lemma2_to64();
    match (a, b) {
        (IpAddr::V4(x), IpAddr::V4(y)) => {
            lemma_extremes(x@, y@);
            assert(x@ == y@ ==> x =~= y);
        },
        (IpAddr::V6(x), IpAddr::V6(y)) => {
            lemma_extremes(x@, y@);
            assert(x@ == y@ ==> x =~= y);
        },
        _ => {},
    }
}

proof fn lemma_extremes(a: Seq<u8>, b: Seq<u8>)
    requires
        a.len() == b.len(),
    ensures
        (net::leading_bits(net::octets_value(a), 8 * a.len(), 8 * a.len()) == net::leading_bits(
            net::octets_value(b),
            8 * a.len(),
            8 * a.len(),
        )) == (a == b),
        net::leading_bits(net::octets_value(a), 8 * a.len(), 0) == 0,
        net::leading_bits(net::octets_value(b), 8 * a.len(), 0) == 0,
{
    vstd::arithmetic::power2::lemma2_to64();
    lemma_octets_bound(a);
    lemma_octets_bound(b);
    lemma_octets_injective(a, b);
    let x = net::octets_value(a);
    let y = net::octets_value(b);
    let p = vstd::arithmetic::power2::pow2(8 * a.len());
    assert(x / 1 == x);
    assert(y / 1 == y);
    vstd::arithmetic::div_mod::lemma_basic_div(x as int, p as int);
    vstd::arithmetic::div_mod::lemma_basic_div(y as int, p as int);
}

/// Law: a range with a longer prefix lies within the one with a shorter prefix.
pub proof fn longer_prefix_covers_less(addr: IpAddr, prefix_len: u8, ip: IpAddr)
    requires
        prefix_len < address_bits(addr),
        (Cidr { addr, prefix_len: (prefix_len + 1) as u8 }).covers(ip),
    ensures
        (Cidr { addr, prefix_len }).covers(ip),
{
    let k = (address_bits(addr) - prefix_len - 1) as nat;
    match (addr, ip) {
        (IpAddr::V4(a), IpAddr::V4(b)) => {
            lemma_shorter_prefix(net::octets_value(a@), k);
            lemma_shorter_prefix(net::octets_value(b@), k);
        },
        (IpAddr::V6(a), IpAddr::V6(b)) => {
            lemma_shorter_prefix(net::octets_value(a@), k);
            lemma_shorter_prefix(net::octets_value(b@), k);
        },
        _ => {},
    }
}

proof fn lemma_shorter_prefix(x: nat, k: nat)
    ensures
        x / vstd::arithmetic::power2::pow2(k + 1) == x / vstd::arithmetic::power2::pow2(k) / 2,
{
    vstd::arithmetic::power2::lemma_pow2_unfold(k + 1);
    vstd::arithmetic::power2::lemma_pow2_pos(k);
    let p = vstd::arithmetic::power2::pow2(k);
    vstd::arithmetic::div_mod::lemma_div_denominator(x as int, p as int, 2);
    assert(p * 2 == 2 * p);
}

proof fn lemma_octets_bound(o: Seq<u8>)
    ensures
        net::octets_value(o) < vstd::arithmetic::power2::pow2(8 * o.len()),
    decreases o.len(),
{
    vstd::arithmetic::power2::lemma2_to64();
    if o.len() > 0 {
        let init = o.drop_last();
        lemma_octets_bound(init);
        vstd::arithmetic::power2::lemma_pow2_adds(8 * init.len(), 8);
        let p = vstd::arithmetic::power2::pow2(8 * init.len());
        assert(8 * o.len() == 8 * init.len() + 8);
        assert(net::octets_value(init) * 256 + 256 <= p * 256) by (nonlinear_arith)
            requires
                net::octets_value(init) + 1 <= p,
        ;
    }
}

proof fn lemma_octets_injective(a: Seq<u8>, b: Seq<u8>)
    requires
        a.len() == b.len(),
    ensures
        (net::octets_value(a) == net::octets_value(b)) == (a == b),
    decreases a.len(),
{
    if a.len() == 0 {
        assert(a =~= b);
    } else {
        lemma_octets_injective(a.drop_last(), b.drop_last());
        if net::octets_value(a) == net::octets_value(b) {
            assert(a =~= a.drop_last().push(a.last()));
            assert(b =~= b.drop_last().push(b.last()));
        }
    }
}

/// Law: a domain pattern goes by the host alone: it selects what its wildcard matches, whether an
/// address is known or not and whichever it is.
pub proof fn domain_pattern_ignores_the_address(
    domain: Seq<char>,
    host: Seq<char>,
    ip: Option<IpAddr>,
    other: Option<IpAddr>,
)
    ensures
        PatternView::Domain(domain).selects(host, ip) == wildcard_matches(domain, host),
        PatternView::Domain(domain).selects(host, ip) == PatternView::Domain(domain).selects(
            host,
            other,
        ),
{
}

/// Law: a pattern that is an address or a range goes by the address alone: it selects nothing
/// where none is known, the address itself or every address of the range where one is, whatever
/// the host.
pub proof fn address_pattern_ignores_the_host(
    a: IpAddr,
    net: Cidr,
    host: Seq<char>,
    other: Seq<char>,
    ip: Option<IpAddr>,
)
    ensures
        PatternView::Ip(a).selects(host, ip) == PatternView::Ip(a).selects(other, ip),
        PatternView::Cidr(net).selects(host, ip) == PatternView::Cidr(net).selects(other, ip),
        !PatternView::Ip(a).selects(host, None),
        !PatternView::Cidr(net).selects(host, None),
        ip matches Some(b) ==> PatternView::Ip(a).selects(host, ip) == (a == b),
        ip matches Some(b) ==> PatternView::Cidr(net).selects(host, ip) == net.covers(b),
{
}

/// Law: a rule for an address and one for the range that holds just it select the same.
pub proof fn single_address_range_is_the_address(a: IpAddr, host: Seq<char>, ip: Option<IpAddr>)
    ensures
        PatternView::Ip(a).selects(host, ip) == PatternView::Cidr(
            Cidr { addr: a, prefix_len: address_bits(a) },
        ).selects(host, ip),
{
    if let Some(b) = ip {
        prefix_length_extremes(a, b);
    }
}

/// Law: a text with a slash is the range that it denotes, and no pattern where it denotes none;
/// any other text is the address that it denotes, or else a domain.
pub proof fn pattern_texts_are_told_apart(
    text: Seq<char>,
    slash: int,
    net: Cidr,
    ip: IpAddr,
    some_net: Option<Cidr>,
    some_ip: Option<IpAddr>,
    host: Seq<char>,
    known: Option<IpAddr>,
)
    ensures
        0 <= slash < text.len() && text[slash] == '/' ==> {
            &&& pattern_kind(text, None, some_ip) is None
            &&& pattern_kind(text, Some(net), some_ip) is Some
            &&& pattern_kind(text, Some(net), some_ip)->0.selects(host, known) == (
            known matches Some(b) && net.covers(b))
        },
        (forall|i: int| 0 <= i < text.len() ==> text[i] != '/') ==> {
            &&& pattern_kind(text, some_net, Some(ip)) is Some
            &&& pattern_kind(text, some_net, None) is Some
            &&& pattern_kind(text, some_net, Some(ip))->0.selects(host, known) == (known == Some(
                ip,
            ))
            &&& pattern_kind(text, some_net, None)->0.selects(host, known) == wildcard_matches(
                text,
                host,
            )
        },
{
}

proof fn lemma_patterns_hold(texts: Seq<Seq<char>>, p: PatternView)
    ensures
        patterns_of(texts).contains(p) <==> exists|k: int|
            0 <= k < texts.len() && pattern_of(#[trigger] texts[k]) == Some(p),
    decreases texts.len(),
{
    if texts.len() > 0 {
        let init = texts.drop_last();
        lemma_patterns_hold(init, p);
        assert(forall|k: int| 0 <= k < init.len() ==> init[k] == texts[k]);
        assert(texts[texts.len() - 1] == texts.last());
        if let Some(q) = pattern_of(texts.last()) {
            vstd::seq_lib::lemma_seq_contains_after_push(patterns_of(init), q, p);
        }
        if patterns_of(init).contains(p) {
            let k = choose|k: int|
                0 <= k < init.len() && pattern_of(#[trigger] init[k]) == Some(p);
            assert(pattern_of(texts[k]) == Some(p));
        }
        if exists|k: int| 0 <= k < texts.len() && pattern_of(#[trigger] texts[k]) == Some(p) {
            let k = choose|k: int|
                0 <= k < texts.len() && pattern_of(#[trigger] texts[k]) == Some(p);
            if k < init.len() {
                assert(pattern_of(init[k]) == Some(p));
            }
        }
    }
}

/// Law: the matcher of a list of texts selects a destination just where one of the texts is a
/// pattern that selects it: no text is passed over that is a pattern, and none selects more than
/// it says.
pub proof fn matcher_selects_what_a_text_selects(
    texts: Seq<Seq<char>>,
    host: Seq<char>,
    ip: Option<IpAddr>,
)
    ensures
        any_selects(patterns_of(texts), host, ip) <==> exists|k: int|
            0 <= k < texts.len() && (pattern_of(#[trigger] texts[k]) matches Some(p) && p.selects(
                host,
                ip,
            )),
{
    let all = patterns_of(texts);
    if any_selects(all, host, ip) {
        let i = choose|i: int| 0 <= i < all.len() && (#[trigger] all[i]).selects(host, ip);
        assert(all.contains(all[i]));
        lemma_patterns_hold(texts, all[i]);
        let k = choose|k: int|
            0 <= k < texts.len() && pattern_of(#[trigger] texts[k]) == Some(all[i]);
        assert(pattern_of(texts[k]) matches Some(p) && p.selects(host, ip));
    }
    if exists|k: int|
        0 <= k < texts.len() && (pattern_of(#[trigger] texts[k]) matches Some(p) && p.selects(
            host,
            ip,
        )) {
        let k = choose|k: int|
            0 <= k < texts.len() && (pattern_of(#[trigger] texts[k]) matches Some(p) && p.selects(
                host,
                ip,
            ));
        let p = pattern_of(texts[k])->0;
        lemma_patterns_hold(texts, p);
        assert(all.contains(p));
        let i = choose|i: int| 0 <= i < all.len() && all[i] == p;
        assert(all[i].selects(host, ip));
    }
}

/// Law: a text that denotes no address and has no slash is a domain pattern of the matcher: where
/// it matches the host, the destination is selected, whatever its address and whatever else the
/// rule lists. So a rule with `*` selects every destination.
pub proof fn matching_domain_selects(
    texts: Seq<Seq<char>>,
    k: int,
    host: Seq<char>,
    ip: Option<IpAddr>,
)
    requires
        0 <= k < texts.len(),
        forall|i: int| 0 <= i < texts[k].len() ==> texts[k][i] != '/',
        net::ip_syntax(texts[k]) is None,
        wildcard_matches(texts[k], host),
    ensures
        any_selects(patterns_of(texts), host, ip),
{
    matcher_selects_what_a_text_selects(texts, host, ip);
    assert(pattern_of(texts[k]) matches Some(p) && p.selects(host, ip));
}

/// Law: a star matches every text, a question mark every text of one character, and a character
/// that is no wildcard itself alone.
pub proof fn wildcards_of_one_character(c: char, text: Seq<char>)
    ensures
        wildcard_matches(seq!['*'], text),
        wildcard_matches(seq!['?'], text) == (text.len() == 1),
        c != '*' && c != '?' ==> wildcard_matches(seq![c], text) == (text == seq![c]),
        wildcard_matches(Seq::empty(), text) == (text.len() == 0),
    decreases text.len(),
{
    reveal_with_fuel(wildcard_matches, 3);
    let none = Seq::<char>::empty();
    assert(seq!['*'].skip(1) =~= none);
    assert(seq!['?'].skip(1) =~= none);
    assert(seq![c].skip(1) =~= none);
    if text.len() > 0 {
        wildcards_of_one_character(c, text.skip(1));
        if text.len() == 1 && text[0] == c {
            assert(text =~= seq![c]);
        }
    }
}

/// Law: a pattern made of two matches just the texts that are made of two, of which the first
/// matches the first and the second the second.
pub proof fn patterns_match_in_turn(a: Seq<char>, b: Seq<char>, text: Seq<char>)
    ensures
        wildcard_matches(a + b, text) <==> exists|k: int|
            0 <= k <= text.len() && wildcard_matches(a, #[trigger] text.take(k))
                && wildcard_matches(b, text.skip(k)),
    decreases a.len(), text.len(),
{
    let ab = a + b;
    let tail = if text.len() > 0 {
        text.skip(1)
    } else {
        text
    };
    if a.len() == 0 {
        assert(ab =~= b);
        assert(text.skip(0) =~= text);
        assert(text.take(0).len() == 0);
        assert(forall|k: int| 0 < k <= text.len() ==> (#[trigger] text.take(k)).len() > 0);
    } else {
        let a1 = a.skip(1);
        assert(ab.skip(1) =~= a1 + b);
        assert(ab[0] == a[0]);
        assert forall|k: int| 0 < k <= text.len() implies {
            &&& (#[trigger] text.take(k)).len() == k
            &&& text.take(k)[0] == text[0]
            &&& text.take(k).skip(1) == tail.take(k - 1)
            &&& text.skip(k) == tail.skip(k - 1)
        } by {
            assert(text.take(k).skip(1) =~= tail.take(k - 1));
            assert(text.skip(k) =~= tail.skip(k - 1));
        }
        if a[0] == '*' {
            patterns_match_in_turn(a1, b, text);
            if text.len() > 0 {
                patterns_match_in_turn(a, b, tail);
            }
            if wildcard_matches(ab, text) {
                if wildcard_matches(a1 + b, text) {
                    let k = choose|k: int|
                        0 <= k <= text.len() && wildcard_matches(a1, #[trigger] text.take(k))
                            && wildcard_matches(b, text.skip(k));
                    assert(wildcard_matches(a, text.take(k)));
                } else {
                    let k = choose|k: int|
                        0 <= k <= tail.len() && wildcard_matches(a, #[trigger] tail.take(k))
                            && wildcard_matches(b, tail.skip(k));
                    assert(text.take(k + 1).skip(1) == tail.take(k));
                    assert(wildcard_matches(a, text.take(k + 1)));
                }
            }
            if exists|k: int|
                0 <= k <= text.len() && wildcard_matches(a, #[trigger] text.take(k))
                    && wildcard_matches(b, text.skip(k)) {
                let k = choose|k: int|
                    0 <= k <= text.len() && wildcard_matches(a, #[trigger] text.take(k))
                        && wildcard_matches(b, text.skip(k));
                if wildcard_matches(a1, text.take(k)) {
                    assert(wildcard_matches(a1 + b, text));
                } else {
                    assert(k > 0);
                    assert(wildcard_matches(a, tail.take(k - 1)));
                    assert(wildcard_matches(ab, tail));
                }
            }
        } else if text.len() > 0 {
            patterns_match_in_turn(a1, b, tail);
            if wildcard_matches(ab, text) {
                let k = choose|k: int|
                    0 <= k <= tail.len() && wildcard_matches(a1, #[trigger] tail.take(k))
                        && wildcard_matches(b, tail.skip(k));
                assert(text.take(k + 1).skip(1) == tail.take(k));
                assert(wildcard_matches(a, text.take(k + 1)));
            }
            if exists|k: int|
                0 <= k <= text.len() && wildcard_matches(a, #[trigger] text.take(k))
                    && wildcard_matches(b, text.skip(k)) {
                let k = choose|k: int|
                    0 <= k <= text.len() && wildcard_matches(a, #[trigger] text.take(k))
                        && wildcard_matches(b, text.skip(k));
                assert(k > 0);
                assert(wildcard_matches(a1, tail.take(k - 1)));
            }
        } else {
            assert(forall|k: int| 0 <= k <= text.len() ==> (#[trigger] text.take(k)).len() == 0);
        }
    }
}

/// What a text in a rule is meant to select: with a slash, the addresses of the range that it
/// denotes; without, the address that it denotes, or the hosts that it matches.
pub open spec fn text_selects(text: Seq<char>, host: Seq<char>, ip: Option<IpAddr>) -> bool {
    if exists|i: int| 0 <= i < text.len() && text[i] == '/' {
        match (net::cidr_syntax(text), ip) {
            (Some(net), Some(b)) => net.covers(b),
            _ => false,
        }
    } else {
        match net::ip_syntax(text) {
            Some(a) => ip == Some(a),
            None => wildcard_matches(text, host),
        }
    }
}

/// Law: a rule selects a destination just where one of its texts is meant to.
pub proof fn rule_selects_by_its_texts(
    texts: Seq<Seq<char>>,
    host: Seq<char>,
    ip: Option<IpAddr>,
)
    ensures
        any_selects(patterns_of(texts), host, ip) <==> exists|k: int|
            0 <= k < texts.len() && text_selects(#[trigger] texts[k], host, ip),
{
    matcher_selects_what_a_text_selects(texts, host, ip);
    assert forall|k: int| 0 <= k < texts.len() implies text_selects(
        #[trigger] texts[k],
        host,
        ip,
    ) == (pattern_of(texts[k]) matches Some(p) && p.selects(host, ip)) by {
        assert(texts[k].contains('/') <==> exists|i: int|
            0 <= i < texts[k].len() && texts[k][i] == '/');
    }
    if exists|k: int| 0 <= k < texts.len() && text_selects(#[trigger] texts[k], host, ip) {
        let k = choose|k: int| 0 <= k < texts.len() && text_selects(#[trigger] texts[k], host, ip);
        assert(pattern_of(texts[k]) matches Some(p) && p.selects(host, ip));
    }
}

/// Law: of a list of strings every one counts, in its place.
pub proof fn every_text_is_seen(strings: Seq<String>, i: int)
    requires
        0 <= i < strings.len(),
    ensures
        texts_of(strings).len() == strings.len(),
        texts_of(strings)[i] == strings[i]@,
{
}

} // verus!
