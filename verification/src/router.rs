//! Routing: which way out a connection takes.

use crate::config::{Config, OutboundConfig, RoutingRule};
use crate::net::IpAddress;
use crate::text::{contains_text, occurs_in, same_text};
use vstd::prelude::*;
use vstd::string::*;

verus! {

/// The tag that is preferred when no rule applies.
pub open spec fn default_name() -> Seq<char> {
    "freedom"@
}

/// What a rule looks at.
pub struct Request {
    pub inbound_tag: Seq<char>,
    pub dest_addr: Seq<char>,
    /// Whether the destination is a name, and not an address.
    pub dest_is_name: bool,
    pub dest_port: u16,
    pub sni: Option<Seq<char>>,
}

/// The text of an optional string.
pub open spec fn text_view(o: Option<String>) -> Option<Seq<char>> {
    match o {
        Some(s) => Some(s@),
        None => None,
    }
}

/// Whether one of the texts is `t`.
pub open spec fn lists_text(texts: Seq<String>, t: Seq<char>) -> bool {
    exists|i: int| 0 <= i < texts.len() && (#[trigger] texts[i])@ == t
}

/// Whether a domain pattern applies: it occurs in the server name that the client asked for,
/// or in the destination if that is a name.
pub open spec fn pattern_applies(pattern: Seq<char>, q: Request) -> bool {
    ||| q.sni matches Some(s) && occurs_in(pattern, s)
    ||| q.dest_is_name && occurs_in(pattern, q.dest_addr)
}

/// Whether one of the domain patterns applies.
pub open spec fn some_pattern_applies(patterns: Seq<String>, q: Request) -> bool {
    exists|i: int| 0 <= i < patterns.len() && pattern_applies((#[trigger] patterns[i])@, q)
}

/// Whether a rule applies: each condition that it gives holds.
pub open spec fn rule_applies(rule: RoutingRule, q: Request) -> bool {
    &&& rule.inbound_tag matches Some(tags) ==> lists_text(tags@, q.inbound_tag)
    &&& rule.port matches Some(ports) ==> ports@.contains(q.dest_port)
    &&& rule.domain matches Some(patterns) ==> some_pattern_applies(patterns@, q)
    &&& rule.ip matches Some(ips) ==> lists_text(ips@, q.dest_addr)
}

/// Whether rule `i` is the first one that applies.
pub open spec fn is_first_rule(rules: Seq<RoutingRule>, q: Request, i: int) -> bool {
    &&& 0 <= i < rules.len()
    &&& rule_applies(rules[i], q)
    &&& forall|j: int| 0 <= j < i ==> !rule_applies(#[trigger] rules[j], q)
}

/// Whether some way out has the tag.
pub open spec fn has_outbound(outbounds: Seq<OutboundConfig>, tag: Seq<char>) -> bool {
    exists|i: int| 0 <= i < outbounds.len() && (#[trigger] outbounds[i]).tag@ == tag
}

/// The tag when no rule applies: `freedom` if there is such a way out, else the first one,
/// and `freedom` again if there is none at all.
pub open spec fn default_tag(outbounds: Seq<OutboundConfig>) -> Seq<char> {
    if has_outbound(outbounds, default_name()) || outbounds.len() == 0 {
        default_name()
    } else {
        outbounds[0].tag@
    }
}

/// The tag of the way out: that of the first rule that applies, or else the default.
pub open spec fn routed_tag(config: Config, q: Request) -> Seq<char> {
    let rules = config.routing.rules@;
    if exists|i: int| is_first_rule(rules, q, i) {
        rules[choose|i: int| is_first_rule(rules, q, i)].outbound_tag@
    } else {
        default_tag(config.outbounds@)
    }
}

/// The first rule that applies decides.
pub proof fn law_first_rule_decides(config: Config, q: Request, i: int)
    requires
        is_first_rule(config.routing.rules@, q, i),
    ensures
        routed_tag(config, q) == config.routing.rules@[i].outbound_tag@,
{
    let rules = config.routing.rules@;
    let k = choose|k: int| is_first_rule(rules, q, k);
    assert(is_first_rule(rules, q, k));
    if k < i {
        assert(!rule_applies(rules[k], q));
    }
    if i < k {
        assert(!rule_applies(rules[i], q));
    }
}

/// Where no rule applies, the default is taken.
pub proof fn law_no_rule_gives_default(config: Config, q: Request)
    requires
        forall|i: int|
            0 <= i < config.routing.rules@.len() ==> !rule_applies(
                #[trigger] config.routing.rules@[i],
                q,
            ),
    ensures
        routed_tag(config, q) == default_tag(config.outbounds@),
{
    let rules = config.routing.rules@;
    if exists|i: int| is_first_rule(rules, q, i) {
        let k = choose|k: int| is_first_rule(rules, q, k);
        assert(is_first_rule(rules, q, k));
        assert(!rule_applies(rules[k], q));
    }
}

/// A rule without conditions applies to every connection.
pub proof fn law_open_rule_applies(rule: RoutingRule, q: Request)
    requires
        rule.inbound_tag is None,
        rule.port is None,
        rule.domain is None,
        rule.ip is None,
    ensures
        rule_applies(rule, q),
{
}

/// A further condition never makes a rule apply where it did not: what a rule with a
/// condition accepts, the same rule without it accepts too.
pub proof fn law_conditions_only_narrow(rule: RoutingRule, weaker: RoutingRule, q: Request)
    requires
        weaker.inbound_tag is None || weaker.inbound_tag == rule.inbound_tag,
        weaker.port is None || weaker.port == rule.port,
        weaker.domain is None || weaker.domain == rule.domain,
        weaker.ip is None || weaker.ip == rule.ip,
        rule_applies(rule, q),
    ensures
        rule_applies(weaker, q),
{
}

/// Domain patterns speak of names: to an address that was asked for without a server name none
/// applies, so that no rule with domain patterns does.
pub proof fn law_patterns_skip_addresses(rule: RoutingRule, pattern: Seq<char>, q: Request)
    requires
        !q.dest_is_name,
        q.sni is None,
    ensures
        !pattern_applies(pattern, q),
        rule.domain is Some ==> !rule_applies(rule, q),
{
}

/// When there are ways out, the default is one of them.
pub proof fn law_default_exists(outbounds: Seq<OutboundConfig>)
    requires
        outbounds.len() > 0,
    ensures
        has_outbound(outbounds, default_tag(outbounds)),
{
    assert(outbounds[0].tag@ == outbounds[0].tag@);
}

/// Whether one of the texts is `t`.
pub fn any_text(texts: &Vec<String>, t: &str) -> (r: bool)
    ensures
        r == lists_text(texts@, t@),
{
    let mut i: usize = 0;
    while i < texts.len()
        invariant
            i <= texts@.len(),
            forall|j: int| 0 <= j < i ==> (#[trigger] texts@[j])@ != t@,
        decreases texts@.len() - i,
    {
        if same_text(texts[i].as_str(), t) {
            return true;
        }
        i = i + 1;
    }
    false
}

/// Whether one of the ports is `p`.
fn any_port(ports: &Vec<u16>, p: u16) -> (r: bool)
    ensures
        r == ports@.contains(p),
{
    let mut i: usize = 0;
    while i < ports.len()
        invariant
            i <= ports@.len(),
            forall|j: int| 0 <= j < i ==> ports@[j] != p,
        decreases ports@.len() - i,
    {
        if ports[i] == p {
            return true;
        }
        i = i + 1;
    }
    false
}

/// The router. It has no state of its own: the rules are those of the configuration.
#[derive(Debug)]
pub struct Router {}

impl Router {
    /// A router.
    pub fn new() -> (r: Router)
        ensures
            r == (Router {  }),
    {
        Router {  }
    }

    /// The tag of the way out for a connection. `literal` is the address that `dest_addr`
    /// spells, if it spells one.
    pub fn route(
        &self,
        inbound_tag: &str,
        dest_addr: &str,
        literal: Option<IpAddress>,
        dest_port: u16,
        sni: &Option<String>,
        config: &Config,
    ) -> (r: String)
        ensures
            r@ == routed_tag(
                *config,
                (Request {
                    inbound_tag: inbound_tag@,
                    dest_addr: dest_addr@,
                    dest_is_name: literal is None,
                    dest_port,
                    sni: text_view(*sni),
                }),
            ),
    {
        let ghost q = Request {
            inbound_tag: inbound_tag@,
            dest_addr: dest_addr@,
            dest_is_name: literal is None,
            dest_port,
            sni: text_view(*sni),
        };
        let rules = &config.routing.rules;
        let mut i: usize = 0;
        while i < rules.len()
            invariant
                i <= rules@.len(),
                rules@ == config.routing.rules@,
                q == (Request {
                    inbound_tag: inbound_tag@,
                    dest_addr: dest_addr@,
                    dest_is_name: literal is None,
                    dest_port,
                    sni: text_view(*sni),
                }),
                forall|j: int| 0 <= j < i ==> !rule_applies(#[trigger] rules@[j], q),
            decreases rules@.len() - i,
        {
            if self.match_rule(&rules[i], inbound_tag, dest_addr, literal, dest_port, sni) {
                proof {
                    law_first_rule_decides(*config, q, i as int);
                }
                return rules[i].outbound_tag.clone();
            }
            i = i + 1;
        }
        proof {
            law_no_rule_gives_default(*config, q);
        }
        let mut k: usize = 0;
        while k < config.outbounds.len()
            invariant
                k <= config.outbounds@.len(),
                routed_tag(*config, q) == default_tag(config.outbounds@),
                q == (Request {
                    inbound_tag: inbound_tag@,
                    dest_addr: dest_addr@,
                    dest_is_name: literal is None,
                    dest_port,
                    sni: text_view(*sni),
                }),
                forall|j: int|
                    0 <= j < k ==> (#[trigger] config.outbounds@[j]).tag@ != default_name(),
            decreases config.outbounds@.len() - k,
        {
            if same_text(config.outbounds[k].tag.as_str(), "freedom") {
                return "freedom".to_string();
            }
            k = k + 1;
        }
        if config.outbounds.len() > 0 {
            config.outbounds[0].tag.clone()
        } else {
            "freedom".to_string()
        }
    }

    /// Whether a rule applies to a connection. `literal` is the address that `dest_addr`
    /// spells, if it spells one.
    pub fn match_rule(
        &self,
        rule: &RoutingRule,
        inbound_tag: &str,
        dest_addr: &str,
        literal: Option<IpAddress>,
        dest_port: u16,
        sni: &Option<String>,
    ) -> (r: bool)
        ensures
            r == rule_applies(
                *rule,
                (Request {
                    inbound_tag: inbound_tag@,
                    dest_addr: dest_addr@,
                    dest_is_name: literal is None,
                    dest_port,
                    sni: text_view(*sni),
                }),
            ),
    {
        if let Some(tags) = &rule.inbound_tag {
            if !any_text(tags, inbound_tag) {
                return false;
            }
        }
        if let Some(ports) = &rule.port {
            if !any_port(ports, dest_port) {
                return false;
            }
        }
        if let Some(patterns) = &rule.domain {
            if !self.match_domain(patterns, inbound_tag, dest_addr, literal, dest_port, sni) {
                return false;
            }
        }
        if let Some(ips) = &rule.ip {
            if !any_text(ips, dest_addr) {
                return false;
            }
        }
        true
    }

    /// Whether one of the domain patterns applies to a connection.
    fn match_domain(
        &self,
        patterns: &Vec<String>,
        inbound_tag: &str,
        dest_addr: &str,
        literal: Option<IpAddress>,
        dest_port: u16,
        sni: &Option<String>,
    ) -> (r: bool)
        ensures
            r == some_pattern_applies(
                patterns@,
                (Request {
                    inbound_tag: inbound_tag@,
                    dest_addr: dest_addr@,
                    dest_is_name: literal is None,
                    dest_port,
                    sni: text_view(*sni),
                }),
            ),
    {
        let ghost q = Request {
            inbound_tag: inbound_tag@,
            dest_addr: dest_addr@,
            dest_is_name: literal is None,
            dest_port,
            sni: text_view(*sni),
        };
        let mut i: usize = 0;
        while i < patterns.len()
            invariant
                i <= patterns@.len(),
                q.dest_addr == dest_addr@,
                q.dest_is_name == literal is None,
                q.sni == text_view(*sni),
                forall|j: int| 0 <= j < i ==> !pattern_applies((#[trigger] patterns@[j])@, q),
            decreases patterns@.len() - i,
        {
            if let Some(s) = sni {
                if contains_text(s.as_str(), patterns[i].as_str()) {
                    assert(pattern_applies(patterns@[i as int]@, q));
                    return true;
                }
            }
            if literal.is_none() && contains_text(dest_addr, patterns[i].as_str()) {
                assert(pattern_applies(patterns@[i as int]@, q));
                return true;
            }
            i = i + 1;
        }
        false
    }
}

/// A rule applies exactly if each of its conditions does, taken alone.
pub proof fn law_rule_is_all_its_conditions(rule: RoutingRule, q: Request)
    ensures
        rule_applies(rule, q) <==> {
            &&& rule_applies(RoutingRule { port: None, domain: None, ip: None, ..rule }, q)
            &&& rule_applies(RoutingRule { inbound_tag: None, domain: None, ip: None, ..rule }, q)
            &&& rule_applies(RoutingRule { inbound_tag: None, port: None, ip: None, ..rule }, q)
            &&& rule_applies(RoutingRule { inbound_tag: None, port: None, domain: None, ..rule }, q)
        },
{
}

/// A rule with addresses alone applies exactly to the destinations among them, wherever in the
/// list they stand.
pub proof fn law_any_listed_address_matches(rule: RoutingRule, q: Request)
    requires
        rule.inbound_tag is None,
        rule.port is None,
        rule.domain is None,
    ensures
        rule.ip matches Some(ips) ==> (rule_applies(rule, q) <==> exists|k: int|
            0 <= k < ips@.len() && (#[trigger] ips@[k])@ == q.dest_addr),
{
}

/// A rule with listeners alone applies exactly to what came in through one of them, wherever in
/// the list it stands.
pub proof fn law_any_listed_listener_matches(rule: RoutingRule, q: Request)
    requires
        rule.port is None,
        rule.domain is None,
        rule.ip is None,
    ensures
        rule.inbound_tag matches Some(tags) ==> (rule_applies(rule, q) <==> exists|k: int|
            0 <= k < tags@.len() && (#[trigger] tags@[k])@ == q.inbound_tag),
{
}

/// A rule with ports alone applies exactly to the ports among them, wherever in the list they
/// stand.
pub proof fn law_any_listed_port_matches(rule: RoutingRule, q: Request)
    requires
        rule.inbound_tag is None,
        rule.domain is None,
        rule.ip is None,
    ensures
        rule.port matches Some(ports) ==> (rule_applies(rule, q) <==> exists|k: int|
            0 <= k < ports@.len() && #[trigger] ports@[k] == q.dest_port),
{
}

/// A rule with domain patterns alone applies exactly if one of them, wherever in the list it
/// stands, is part of the server name, or of the destination if that is a name; it may be any
/// part, from the beginning, the middle or the end.
pub proof fn law_any_listed_pattern_matches(rule: RoutingRule, q: Request)
    requires
        rule.inbound_tag is None,
        rule.port is None,
        rule.ip is None,
    ensures
        rule.domain matches Some(patterns) ==> (rule_applies(rule, q) <==> exists|k: int|
            0 <= k < patterns@.len() && ({
                let p = (#[trigger] patterns@[k])@;
                ||| q.sni matches Some(s) && exists|i: int|
                    0 <= i <= s.len() - p.len() && #[trigger] s.subrange(i, i + p.len()) == p
                ||| q.dest_is_name && exists|i: int|
                    0 <= i <= q.dest_addr.len() - p.len() && #[trigger] q.dest_addr.subrange(
                        i,
                        i + p.len(),
                    ) == p
            })),
{
    if let Some(patterns) = rule.domain {
        if rule_applies(rule, q) {
            let k = choose|k: int|
                0 <= k < patterns@.len() && pattern_applies((#[trigger] patterns@[k])@, q);
            assert(pattern_applies(patterns@[k]@, q));
        }
        assert forall|k: int| 0 <= k < patterns@.len() && ({
            let p = (#[trigger] patterns@[k])@;
            ||| q.sni matches Some(s) && exists|i: int|
                0 <= i <= s.len() - p.len() && #[trigger] s.subrange(i, i + p.len()) == p
            ||| q.dest_is_name && exists|i: int|
                0 <= i <= q.dest_addr.len() - p.len() && #[trigger] q.dest_addr.subrange(
                    i,
                    i + p.len(),
                ) == p
        }) implies rule_applies(rule, q) by {
            assert(pattern_applies(patterns@[k]@, q));
        }
    }
}

/// The way out is that of the first rule that applies; with none, it is `freedom` if there is a
/// way out of that name or none at all, and else the first way out.
pub proof fn law_way_out(config: Config, q: Request, i: int)
    ensures
        0 <= i < config.routing.rules@.len() && rule_applies(config.routing.rules@[i], q) && (
        forall|j: int|
            0 <= j < i ==> !rule_applies(#[trigger] config.routing.rules@[j], q)) ==> routed_tag(
            config,
            q,
        ) == config.routing.rules@[i].outbound_tag@,
        (forall|j: int|
            0 <= j < config.routing.rules@.len() ==> !rule_applies(
                #[trigger] config.routing.rules@[j],
                q,
            )) ==> {
            let outs = config.outbounds@;
            &&& (exists|k: int| 0 <= k < outs.len() && (#[trigger] outs[k]).tag@ == "freedom"@)
                ==> routed_tag(config, q) == "freedom"@
            &&& outs.len() == 0 ==> routed_tag(config, q) == "freedom"@
            &&& outs.len() > 0 && (forall|k: int|
                0 <= k < outs.len() ==> (#[trigger] outs[k]).tag@ != "freedom"@) ==> routed_tag(
                config,
                q,
            ) == outs[0].tag@
        },
{
    let rules = config.routing.rules@;
    if 0 <= i < rules.len() && rule_applies(rules[i], q) && (forall|j: int|
        0 <= j < i ==> !rule_applies(#[trigger] rules[j], q)) {
        assert(is_first_rule(rules, q, i));
        law_first_rule_decides(config, q, i);
    }
    if forall|j: int| 0 <= j < rules.len() ==> !rule_applies(#[trigger] rules[j], q) {
        law_no_rule_gives_default(config, q);
    }
}

/// A text that is given is taken as it is, an empty one too; only one that is not given is
/// none.
pub proof fn law_given_text_counts(s: String)
    ensures
        text_view(Some(s)) == Some(s@),
        text_view(None) == None::<Seq<char>>,
{
}

} // verus!
