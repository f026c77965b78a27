//! The rules that decide which way a connection goes.

use crate::config::{Config, Rule, YamlParseError};
use crate::matcher;
use crate::matcher::RuleMatcher;
use crate::net::IpAddr;
use crate::proxy_client;
use crate::proxy_client::{ProxyConfig, UrlError};
use vstd::prelude::*;
use vstd::string::*;

verus! {

// ---------------------------------------------------------------------------
// Reading the rules
// ---------------------------------------------------------------------------

/// What a rule is: its patterns and its proxy.
pub ghost struct RuleView {
    pub patterns: Seq<matcher::PatternView>,
    pub proxy: proxy_client::ProxyView,
}

/// The view of a rule.
pub open spec fn rule_view(r: (RuleMatcher, ProxyConfig)) -> RuleView {
    RuleView { patterns: r.0@, proxy: r.1@ }
}

/// The view of rules.
pub open spec fn rule_views(rules: Seq<(RuleMatcher, ProxyConfig)>) -> Seq<RuleView> {
    rules.map_values(|r: (RuleMatcher, ProxyConfig)| rule_view(r))
}

/// The rules that a configuration holds, or what is wrong with the URL of the first that is no
/// rule.
pub open spec fn rules_of(rules: Seq<Rule>) -> Result<Seq<RuleView>, UrlError<Seq<char>>>
    decreases rules.len(),
{
    if rules.len() == 0 {
        Ok(Seq::empty())
    } else {
        match rules_of(rules.drop_last()) {
            Err(e) => Err(e),
            Ok(head) => {
                let rule = rules.last();
                match proxy_client::proxy_of_url(rule.forward_to@) {
                    Err(e) => Err(e),
                    Ok(proxy) => Ok(
                        head.push(
                            RuleView {
                                patterns: matcher::patterns_of(
                                    matcher::texts_of(rule.match_patterns@),
                                ),
                                proxy,
                            },
                        ),
                    ),
                }
            },
        }
    }
}

/// The view of rules or of an error.
pub open spec fn outcome_view(
    r: Result<Vec<(RuleMatcher, ProxyConfig)>, UrlError<String>>,
) -> Result<Seq<RuleView>, UrlError<Seq<char>>> {
    match r {
        Ok(rules) => Ok(rule_views(rules@)),
        Err(e) => Err(e@),
    }
}

proof fn lemma_bad_rule_spoils_all(rules: Seq<Rule>, i: int)
    requires
        0 <= i <= rules.len(),
        rules_of(rules.take(i)) is Err,
    ensures
        rules_of(rules) == rules_of(rules.take(i)),
    decreases rules.len(),
{
    if i == rules.len() {
        assert(rules.take(i) =~= rules);
    } else {
        assert(rules.drop_last().take(i) =~= rules.take(i));
        lemma_bad_rule_spoils_all(rules.drop_last(), i);
    }
}

/// Copies texts.
fn copy_texts(texts: &Vec<String>) -> (r: Vec<String>)
    ensures
        matcher::texts_of(r@) == matcher::texts_of(texts@),
{
    let mut out: Vec<String> = Vec::new();
    let mut i: usize = 0;
    while i < texts.len()
        invariant
            i <= texts@.len(),
            matcher::texts_of(out@) == matcher::texts_of(texts@).take(i as int),
        decreases texts@.len() - i,
    {
        let ghost before = out@;
        out.push(texts[i].clone());
        assert(matcher::texts_of(out@) =~= matcher::texts_of(before).push(texts@[i as int]@));
        assert(matcher::texts_of(out@) =~= matcher::texts_of(texts@).take(i + 1));
        i = i + 1;
    }
    assert(matcher::texts_of(out@) =~= matcher::texts_of(texts@));
    out
}

/// Reads the rules of a configuration.
pub fn parse_rules(config: &Config) -> (r: Result<
    Vec<(RuleMatcher, ProxyConfig)>,
    UrlError<String>,
>)
    ensures
        outcome_view(r) == rules_of(config.rules@),
{
    let mut rules: Vec<(RuleMatcher, ProxyConfig)> = Vec::new();
    let mut i: usize = 0;
    let ghost all = config.rules@;
    assert(rule_views(rules@) =~= Seq::empty());
    while i < config.rules.len()
        invariant
            i <= all.len(),
            all == config.rules@,
            rules_of(all.take(i as int)) == Ok::<Seq<RuleView>, UrlError<Seq<char>>>(
                rule_views(rules@),
            ),
        decreases all.len() - i,
    {
        let rule = &config.rules[i];
        proof {
            assert(all.take(i + 1).drop_last() =~= all.take(i as int));
            assert(all.take(i + 1).last() == *rule);
        }
        let matcher = RuleMatcher::new(copy_texts(&rule.match_patterns));
        match ProxyConfig::from_url(rule.forward_to.as_str()) {
            Err(e) => {
                proof {
                    lemma_bad_rule_spoils_all(all, i + 1);
                }
                return Err(e);
            },
            Ok(proxy) => {
                let ghost before = rule_views(rules@);
                rules.push((matcher, proxy));
                assert(rule_views(rules@) =~= before.push(
                    RuleView { patterns: matcher@, proxy: proxy@ },
                ));
            },
        }
        i = i + 1;
    }
    assert(all.take(i as int) =~= all);
    Ok(rules)
}

// ---------------------------------------------------------------------------
// Choosing a way
// ---------------------------------------------------------------------------

/// The first rule that selects a destination.
pub open spec fn first_match(rules: Seq<RuleView>, host: Seq<char>, ip: Option<IpAddr>) -> Option<
    int,
>
    decreases rules.len(),
{
    if rules.len() == 0 {
        None
    } else {
        match first_match(rules.drop_last(), host, ip) {
            Some(i) => Some(i),
            None => if matcher::any_selects(rules.last().patterns, host, ip) {
                Some(rules.len() - 1)
            } else {
                None
            },
        }
    }
}

proof fn lemma_first_match(rules: Seq<RuleView>, host: Seq<char>, ip: Option<IpAddr>, i: int)
    requires
        0 <= i < rules.len(),
        matcher::any_selects(rules[i].patterns, host, ip),
        first_match(rules.take(i), host, ip) is None,
    ensures
        first_match(rules, host, ip) == Some(i),
    decreases rules.len(),
{
    if i == rules.len() - 1 {
        assert(rules.take(i) =~= rules.drop_last());
    } else {
        assert(rules.drop_last().take(i) =~= rules.take(i));
        lemma_first_match(rules.drop_last(), host, ip, i);
    }
}

/// Finds the first rule that selects a destination.
pub fn find_rule(
    rules: &Vec<(RuleMatcher, ProxyConfig)>,
    host: &str,
    ip: Option<IpAddr>,
) -> (r: Option<usize>)
    ensures
        match r {
            Some(i) => i < rules@.len() && first_match(rule_views(rules@), host@, ip) == Some(
                i as int,
            ),
            None => first_match(rule_views(rules@), host@, ip) is None,
        },
{
    let ghost views = rule_views(rules@);
    let mut i: usize = 0;
    while i < rules.len()
        invariant
            i <= rules@.len(),
            views == rule_views(rules@),
            first_match(views.take(i as int), host@, ip) is None,
        decreases rules@.len() - i,
    {
        proof {
            assert(views[i as int] == rule_view(rules@[i as int]));
            assert(views.take(i + 1).drop_last() =~= views.take(i as int));
            assert(views.take(i + 1).last() == views[i as int]);
        }
        if rules[i].0.matches(host, ip) {
            proof {
                lemma_first_match(views, host@, ip, i as int);
            }
            return Some(i);
        }
        i = i + 1;
    }
    assert(views.take(i as int) =~= views);
    None
}

/// The way that a connection goes.
#[derive(Debug)]
pub enum Route<P> {
    /// Straight to its destination.
    Direct,
    /// Through a proxy.
    Via(P),
}

impl View for Route<ProxyConfig> {
    type V = Route<proxy_client::ProxyView>;

    open spec fn view(&self) -> Route<proxy_client::ProxyView> {
        match self {
            Route::Direct => Route::Direct,
            Route::Via(proxy) => Route::Via(proxy@),
        }
    }
}

/// The way to a destination: through the proxy of the first rule that selects it, or straight.
pub open spec fn route_of(rules: Seq<RuleView>, host: Seq<char>, ip: Option<IpAddr>) -> Route<
    proxy_client::ProxyView,
> {
    match first_match(rules, host, ip) {
        Some(i) => Route::Via(rules[i].proxy),
        None => Route::Direct,
    }
}

/// The text that the traffic window shows for a way.
pub open spec fn route_text(r: Route<proxy_client::ProxyView>) -> Seq<char> {
    match r {
        Route::Direct => "direct"@,
        Route::Via(proxy) => proxy_client::url_of_proxy(proxy),
    }
}

/// Chooses the way to a destination.
pub fn choose_route(
    rules: &Vec<(RuleMatcher, ProxyConfig)>,
    host: &str,
    ip: Option<IpAddr>,
) -> (r: Route<ProxyConfig>)
    ensures
        r@ == route_of(rule_views(rules@), host@, ip),
{
    match find_rule(rules, host, ip) {
        Some(i) => {
            let proxy = rules[i].1.clone();
            assert(rule_views(rules@)[i as int] == rule_view(rules@[i as int]));
            Route::Via(proxy)
        },
        None => Route::Direct,
    }
}

impl Route<ProxyConfig> {
    /// The text that the traffic window shows.
    pub fn text(&self) -> (r: String)
        ensures
            r@ == route_text(self@),
    {
        match self {
            Route::Direct => "direct".to_string(),
            Route::Via(proxy) => proxy.url(),
        }
    }
}

// ---------------------------------------------------------------------------
// Reading the rules again
// ---------------------------------------------------------------------------

/// How long to wait before a changed file is read, in milliseconds.
pub const RELOAD_DELAY_MILLIS: u64 = 100;

/// How long reading a changed file may take, in seconds.
pub const RELOAD_TIMEOUT_SECS: u64 = 5;

/// What came of reading the configuration file again.
#[derive(Debug)]
pub enum ReloadEvent {
    /// It was read and parsed.
    Loaded(Config),
    /// It was read and cannot be parsed.
    ParseFailed(YamlParseError),
    /// It could not be read.
    ReadFailed(String),
    /// It was not read in time.
    TimedOut,
}

/// What to tell of a reload.
#[derive(Debug)]
pub enum ReloadReport {
    /// The rules are new.
    Reloaded,
    /// The rules are as before: one of the new ones is wrong in this way.
    BadRule(UrlError<String>),
    /// The rules are as before: tell the user of this error in the file.
    BadFile(YamlParseError),
    /// The rules are as before: the file could not be read, for this reason.
    Unreadable(String),
    /// The rules are as before: the file was not read in time.
    TimedOut,
}

/// The rules after an attempt to read the file again: the new ones where every one of them is
/// right, those before in any other case.
pub open spec fn reloaded(rules: Seq<RuleView>, event: ReloadEvent) -> Seq<RuleView> {
    match event {
        ReloadEvent::Loaded(config) => match rules_of(config.rules@) {
            Ok(new) => new,
            Err(_) => rules,
        },
        _ => rules,
    }
}

/// Whether a report tells of what came of reading the file.
pub open spec fn reports(event: ReloadEvent, r: ReloadReport) -> bool {
    match event {
        ReloadEvent::Loaded(config) => match rules_of(config.rules@) {
            Ok(_) => r is Reloaded,
            Err(e) => r matches ReloadReport::BadRule(shown) && shown@ == e,
        },
        ReloadEvent::ParseFailed(e) => r == ReloadReport::BadFile(e),
        ReloadEvent::ReadFailed(reason) => r == ReloadReport::Unreadable(reason),
        ReloadEvent::TimedOut => r is TimedOut,
    }
}

/// Puts the rules of a changed file in force.
pub fn reload(rules: &mut Vec<(RuleMatcher, ProxyConfig)>, event: ReloadEvent) -> (r: ReloadReport)
    ensures
        rule_views(final(rules)@) == reloaded(rule_views(old(rules)@), event),
        match event {
            ReloadEvent::Loaded(config) => match rules_of(config.rules@) {
                Ok(_) => r is Reloaded,
                Err(e) => r matches ReloadReport::BadRule(shown) && shown@ == e,
            },
            ReloadEvent::ParseFailed(e) => r == ReloadReport::BadFile(e),
            ReloadEvent::ReadFailed(reason) => r == ReloadReport::Unreadable(reason),
            ReloadEvent::TimedOut => r is TimedOut,
        },
        reports(event, r),
{
    match event {
        ReloadEvent::Loaded(config) => match parse_rules(&config) {
            Ok(new) => {
                *rules = new;
                ReloadReport::Reloaded
            },
            Err(e) => ReloadReport::BadRule(e),
        },
        ReloadEvent::ParseFailed(e) => ReloadReport::BadFile(e),
        ReloadEvent::ReadFailed(reason) => ReloadReport::Unreadable(reason),
        ReloadEvent::TimedOut => ReloadReport::TimedOut,
    }
}

// ---------------------------------------------------------------------------
// Laws
// ---------------------------------------------------------------------------

/// Law: the rule that is used selects the destination, and none before it does; where none is
/// used, none selects it.
pub proof fn first_matching_rule_is_used(
    rules: Seq<RuleView>,
    host: Seq<char>,
    ip: Option<IpAddr>,
)
    ensures
        match first_match(rules, host, ip) {
            Some(i) => 0 <= i < rules.len() && matcher::any_selects(rules[i].patterns, host, ip)
                && forall|j: int|
                0 <= j < i ==> !matcher::any_selects((#[trigger] rules[j]).patterns, host, ip),
            None => forall|j: int|
                0 <= j < rules.len() ==> !matcher::any_selects(
                    (#[trigger] rules[j]).patterns,
                    host,
                    ip,
                ),
        },
    decreases rules.len(),
{
    if rules.len() > 0 {
        let init = rules.drop_last();
        first_matching_rule_is_used(init, host, ip);
        assert(forall|j: int| 0 <= j < init.len() ==> init[j] == rules[j]);
    }
}

/// Law: without a rule that matches, the connection is made directly.
pub proof fn no_rule_means_direct(rules: Seq<RuleView>, host: Seq<char>, ip: Option<IpAddr>)
    requires
        forall|j: int|
            0 <= j < rules.len() ==> !matcher::any_selects(
                (#[trigger] rules[j]).patterns,
                host,
                ip,
            ),
    ensures
        route_of(rules, host, ip) == Route::<proxy_client::ProxyView>::Direct,
{
    first_matching_rule_is_used(rules, host, ip);
    if let Some(i) = first_match(rules, host, ip) {
        assert(matcher::any_selects(rules[i].patterns, host, ip));
    }
}

/// Law: every rule of the configuration that is in force is there, in its place.
pub proof fn rules_keep_their_order(rules: Seq<Rule>, i: int)
    requires
        0 <= i < rules.len(),
        rules_of(rules) is Ok,
    ensures
        rules_of(rules)->Ok_0.len() == rules.len(),
        rules_of(rules)->Ok_0[i].patterns == matcher::patterns_of(
            matcher::texts_of(rules[i].match_patterns@),
        ),
        proxy_client::proxy_of_url(rules[i].forward_to@) == Ok::<
            proxy_client::ProxyView,
            UrlError<Seq<char>>,
        >(rules_of(rules)->Ok_0[i].proxy),
    decreases rules.len(),
{
    reveal_with_fuel(rules_of, 2);
    let init = rules.drop_last();
    if init.len() > 0 {
        rules_keep_their_order(init, if i < init.len() { i } else { 0 });
    }
}

/// Law: a file that cannot be used never changes the rules.
pub proof fn bad_file_keeps_the_rules(rules: Seq<RuleView>, event: ReloadEvent)
    requires
        event matches ReloadEvent::Loaded(config) ==> rules_of(config.rules@) is Err,
    ensures
        reloaded(rules, event) == rules,
{
}

/// Law: the way to a destination is through the proxy of the rule that selects it, provided that no
/// rule before it does; the rules behind it have no say.
pub proof fn route_goes_through_the_first_match(
    rules: Seq<RuleView>,
    i: int,
    behind: Seq<RuleView>,
    host: Seq<char>,
    ip: Option<IpAddr>,
)
    requires
        0 <= i < rules.len(),
        matcher::any_selects(rules[i].patterns, host, ip),
        forall|j: int|
            0 <= j < i ==> !matcher::any_selects((#[trigger] rules[j]).patterns, host, ip),
    ensures
        route_of(rules, host, ip) == Route::Via(rules[i].proxy),
        route_of(rules.take(i + 1) + behind, host, ip) == Route::Via(rules[i].proxy),
{
    lemma_least_match(rules, i, host, ip);
    let other = rules.take(i + 1) + behind;
    assert(forall|j: int| 0 <= j <= i ==> other[j] == rules[j]);
    lemma_least_match(other, i, host, ip);
}

proof fn lemma_least_match(rules: Seq<RuleView>, i: int, host: Seq<char>, ip: Option<IpAddr>)
    requires
        0 <= i < rules.len(),
        matcher::any_selects(rules[i].patterns, host, ip),
        forall|j: int|
            0 <= j < i ==> !matcher::any_selects((#[trigger] rules[j]).patterns, host, ip),
    ensures
        first_match(rules, host, ip) == Some(i),
{
    first_matching_rule_is_used(rules, host, ip);
    if let Some(k) = first_match(rules, host, ip) {
        if k < i {
            assert(!matcher::any_selects(rules[k].patterns, host, ip));
        } else if k > i {
            assert(!matcher::any_selects(rules[i].patterns, host, ip));
        }
    }
}

/// Law: a rule whose texts are not meant for a destination never changes the way to it, wherever
/// the rule stands.
pub proof fn other_rules_do_not_matter(
    before: Seq<RuleView>,
    rule: RuleView,
    behind: Seq<RuleView>,
    host: Seq<char>,
    ip: Option<IpAddr>,
)
    requires
        !matcher::any_selects(rule.patterns, host, ip),
    ensures
        route_of(before + seq![rule] + behind, host, ip) == route_of(before + behind, host, ip),
{
    let with = before + seq![rule] + behind;
    let without = before + behind;
    let n = before.len() as int;
    assert(forall|j: int| 0 <= j < n ==> with[j] == without[j]);
    assert(with[n] == rule);
    assert(forall|j: int| n < j < with.len() ==> with[j] == without[j - 1]);
    first_matching_rule_is_used(without, host, ip);
    match first_match(without, host, ip) {
        Some(i) => {
            let k = if i < n {
                i
            } else {
                i + 1
            };
            assert forall|j: int| 0 <= j < k implies !matcher::any_selects(
                (#[trigger] with[j]).patterns,
                host,
                ip,
            ) by {
                if j < n {
                    assert(!matcher::any_selects(without[j].patterns, host, ip));
                } else if j > n {
                    assert(!matcher::any_selects(without[j - 1].patterns, host, ip));
                }
            }
            route_goes_through_the_first_match(with, k, Seq::empty(), host, ip);
        },
        None => {
            assert forall|j: int| 0 <= j < with.len() implies !matcher::any_selects(
                (#[trigger] with[j]).patterns,
                host,
                ip,
            ) by {
                if j < n {
                    assert(!matcher::any_selects(without[j].patterns, host, ip));
                } else if j > n {
                    assert(!matcher::any_selects(without[j - 1].patterns, host, ip));
                }
            }
            no_rule_means_direct(with, host, ip);
            no_rule_means_direct(without, host, ip);
        },
    }
}

/// Law: from the configuration to the way: a destination goes through the proxy that the URL of the
/// first rule denotes whose texts are meant for it, and directly where there is none.
pub proof fn configuration_decides_the_route(
    rules: Seq<Rule>,
    i: int,
    host: Seq<char>,
    ip: Option<IpAddr>,
)
    requires
        rules_of(rules) is Ok,
    ensures
        0 <= i < rules.len() && names(rules[i], host, ip) && (forall|j: int|
            0 <= j < i ==> !names(#[trigger] rules[j], host, ip)) ==> (proxy_client::proxy_of_url(
            rules[i].forward_to@,
        ) matches Ok(proxy) && route_of(rules_of(rules)->Ok_0, host, ip) == Route::Via(proxy)),
        (forall|j: int| 0 <= j < rules.len() ==> !names(#[trigger] rules[j], host, ip))
            ==> route_of(rules_of(rules)->Ok_0, host, ip) == Route::<
            proxy_client::ProxyView,
        >::Direct,
{
    let views = rules_of(rules)->Ok_0;
    assert forall|j: int| 0 <= j < rules.len() implies {
        &&& views.len() == rules.len()
        &&& names(#[trigger] rules[j], host, ip) == matcher::any_selects(
            views[j].patterns,
            host,
            ip,
        )
    } by {
        rules_keep_their_order(rules, j);
        matcher::rule_selects_by_its_texts(
            matcher::texts_of(rules[j].match_patterns@),
            host,
            ip,
        );
        lemma_names(rules[j], host, ip);
    }
    if rules.len() == 0 {
        assert(views.len() == 0);
    }
    if forall|j: int| 0 <= j < rules.len() ==> !names(#[trigger] rules[j], host, ip) {
        assert forall|j: int| 0 <= j < views.len() implies !matcher::any_selects(
            (#[trigger] views[j]).patterns,
            host,
            ip,
        ) by {
            if rules.len() > 0 {
                rules_keep_their_order(rules, 0);
            }
            assert(!names(rules[j], host, ip));
        }
        no_rule_means_direct(views, host, ip);
    }
    if 0 <= i < rules.len() && names(rules[i], host, ip) && (forall|j: int|
        0 <= j < i ==> !names(#[trigger] rules[j], host, ip)) {
        rules_keep_their_order(rules, i);
        assert forall|j: int| 0 <= j < i implies !matcher::any_selects(
            (#[trigger] views[j]).patterns,
            host,
            ip,
        ) by {
            assert(!names(rules[j], host, ip));
        }
        route_goes_through_the_first_match(views, i, Seq::empty(), host, ip);
    }
}

/// Whether one of the texts of a rule is meant for a destination.
pub open spec fn names(rule: Rule, host: Seq<char>, ip: Option<IpAddr>) -> bool {
    exists|k: int|
        0 <= k < rule.match_patterns@.len() && matcher::text_selects(
            (#[trigger] rule.match_patterns@[k])@,
            host,
            ip,
        )
}

proof fn lemma_names(rule: Rule, host: Seq<char>, ip: Option<IpAddr>)
    ensures
        names(rule, host, ip) <==> exists|k: int|
            0 <= k < matcher::texts_of(rule.match_patterns@).len() && matcher::text_selects(
                #[trigger] matcher::texts_of(rule.match_patterns@)[k],
                host,
                ip,
            ),
{
    let texts = matcher::texts_of(rule.match_patterns@);
    assert forall|k: int| 0 <= k < texts.len() implies #[trigger] texts[k]
        == rule.match_patterns@[k]@ by {}
    if names(rule, host, ip) {
        let k = choose|k: int|
            0 <= k < rule.match_patterns@.len() && matcher::text_selects(
                (#[trigger] rule.match_patterns@[k])@,
                host,
                ip,
            );
        assert(matcher::text_selects(texts[k], host, ip));
    }
    if exists|k: int|
        0 <= k < texts.len() && matcher::text_selects(#[trigger] texts[k], host, ip) {
        let k = choose|k: int|
            0 <= k < texts.len() && matcher::text_selects(#[trigger] texts[k], host, ip);
        assert(matcher::text_selects(rule.match_patterns@[k]@, host, ip));
    }
}

/// Law: a configuration is refused just where a rule has a URL that is none, and with what is wrong
/// with the first of them.
pub proof fn first_bad_url_is_reported(rules: Seq<Rule>, i: int)
    requires
        0 <= i <= rules.len(),
        forall|j: int|
            0 <= j < i ==> proxy_client::proxy_of_url((#[trigger] rules[j]).forward_to@) is Ok,
    ensures
        i == rules.len() ==> rules_of(rules) is Ok,
        i < rules.len() ==> (proxy_client::proxy_of_url(rules[i].forward_to@) matches Err(e)
            ==> rules_of(rules) == Err::<Seq<RuleView>, UrlError<Seq<char>>>(e)),
{
    lemma_good_rules(rules.take(i));
    if i == rules.len() {
        assert(rules.take(i) =~= rules);
    } else if proxy_client::proxy_of_url(rules[i].forward_to@) is Err {
        assert(rules.take(i + 1).drop_last() =~= rules.take(i));
        assert(rules.take(i + 1).last() == rules[i]);
        lemma_bad_rule_spoils_all(rules, i + 1);
    }
}

proof fn lemma_good_rules(rules: Seq<Rule>)
    requires
        forall|j: int|
            0 <= j < rules.len() ==> proxy_client::proxy_of_url(
                (#[trigger] rules[j]).forward_to@,
            ) is Ok,
    ensures
        rules_of(rules) is Ok,
    decreases rules.len(),
{
    if rules.len() > 0 {
        let init = rules.drop_last();
        assert forall|j: int| 0 <= j < init.len() implies proxy_client::proxy_of_url(
            (#[trigger] init[j]).forward_to@,
        ) is Ok by {
            assert(init[j] == rules[j]);
        }
        lemma_good_rules(init);
        assert(rules[rules.len() - 1] == rules.last());
    }
}

/// Law: a file whose rules are all right puts just those in force, whatever was before.
pub proof fn good_file_brings_its_rules(rules: Seq<RuleView>, config: Config)
    requires
        rules_of(config.rules@) is Ok,
    ensures
        reloaded(rules, ReloadEvent::Loaded(config)) == rules_of(config.rules@)->Ok_0,
{
}

/// Law: the way that is shown is the word for a direct one, or the URL of the proxy.
pub proof fn shown_routes_tell_the_proxy(proxy: proxy_client::ProxyView)
    ensures
        route_text(Route::Direct) == "direct"@,
        proxy.proxy_type is Socks5 ==> route_text(Route::Via(proxy)) == "socks5://"@ + proxy.addr,
        proxy.proxy_type is Socks5h ==> route_text(Route::Via(proxy)) == "socks5h://"@
            + proxy.addr,
        proxy.proxy_type is Http ==> route_text(Route::Via(proxy)) == "http://"@ + proxy.addr,
{
    reveal_strlit("socks5");
    reveal_strlit("socks5h");
    reveal_strlit("http");
    reveal_strlit("://");
    reveal_strlit("socks5://");
    reveal_strlit("socks5h://");
    reveal_strlit("http://");
    assert("socks5"@ + "://"@ =~= "socks5://"@);
    assert("socks5h"@ + "://"@ =~= "socks5h://"@);
    assert("http"@ + "://"@ =~= "http://"@);
}

/// Law: new rules are reported just where they are in force; in every other case the user is told
/// what is wrong: with the first bad rule, with the file, or that it could not be read in time.
pub proof fn reload_is_reported_as_it_went(event: ReloadEvent, r: ReloadReport)
    requires
        reports(event, r),
    ensures
        r is Reloaded <==> (event matches ReloadEvent::Loaded(config) && rules_of(
            config.rules@,
        ) is Ok),
        r is BadRule <==> (event matches ReloadEvent::Loaded(config) && rules_of(
            config.rules@,
        ) is Err),
        r is BadFile <==> event is ParseFailed,
        r is Unreadable <==> event is ReadFailed,
        r is TimedOut <==> event is TimedOut,
        event matches ReloadEvent::ParseFailed(e) ==> r == ReloadReport::BadFile(e),
        event matches ReloadEvent::ReadFailed(reason) ==> r == ReloadReport::Unreadable(reason),
        event matches ReloadEvent::Loaded(config) ==> (rules_of(config.rules@) matches Err(e) ==> (
        r matches ReloadReport::BadRule(shown) && shown@ == e)),
{
}

/// Law: of every rule, in its place, it is known what it selects and which proxy it names.
pub proof fn every_rule_is_seen(rules: Seq<(RuleMatcher, ProxyConfig)>, i: int)
    requires
        0 <= i < rules.len(),
    ensures
        rule_views(rules).len() == rules.len(),
        rule_views(rules)[i].patterns == rules[i].0@,
        rule_views(rules)[i].proxy == rules[i].1@,
{
}

} // verus!
