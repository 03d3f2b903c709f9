//! A group: one or more user agents together with their rules and the
//! auxiliary `crawl-delay`, `sitemap` and `request-rate` directives.

use vstd::prelude::*;
use crate::numbers::{Delay, RequestRate};
use crate::rule::{RuleLine, SpecRule, spec_rule_applies};
use crate::text::{SLASH, STAR, spec_find, lemma_find, find_byte, spec_lower, to_lower,
    spec_contains, contains_bytes, bytes_eq};
use crate::urlcheck::{url_parse_ok, is_parsable_url};

verus! {

/// The model of a group: agent tokens, rules in order, and the three
/// auxiliary directives.
#[verifier::ext_equal]
pub ghost struct SpecEntry {
    pub agents: Seq<Seq<u8>>,
    pub rules: Seq<SpecRule>,
    pub crawl_delay: Option<Delay>,
    pub sitemaps: Seq<Seq<u8>>,
    pub req_rate: Option<RequestRate>,
}

/// The group a fresh block starts from: nothing recorded yet.
pub open spec fn spec_empty_entry() -> SpecEntry {
    SpecEntry {
        agents: Seq::empty(),
        rules: Seq::empty(),
        crawl_delay: None,
        sitemaps: Seq::empty(),
        req_rate: None,
    }
}

/// A group is empty when it records no agents and no rules.
pub open spec fn spec_entry_is_empty(e: SpecEntry) -> bool {
    e.agents.len() == 0 && e.rules.len() == 0
}

/// The product-name token of an agent string: everything before the first
/// `/`, lower-cased.
pub open spec fn spec_agent_token(ua: Seq<u8>) -> Seq<u8> {
    match spec_find(ua, SLASH) {
        Some(i) => spec_lower(ua.take(i)),
        None => spec_lower(ua),
    }
}

/// A group applies to an agent when one of its stored tokens is `*`, or
/// occurs as a substring of the agent's lower-cased product-name token.
pub open spec fn spec_entry_applies(e: SpecEntry, ua: Seq<u8>) -> bool {
    exists|k: int|
        0 <= k < e.agents.len() && ((#[trigger] e.agents[k]) == seq![STAR] || spec_contains(
            spec_agent_token(ua),
            e.agents[k],
        ))
}

/// What a rule list says about a path: the first applying rule decides, and
/// no applying rule means the path is allowed.
pub open spec fn spec_allowance(rules: Seq<SpecRule>, path: Seq<u8>) -> bool
    decreases rules.len(),
{
    if rules.len() == 0 {
        true
    } else if spec_rule_applies(rules[0], path) {
        rules[0].allow
    } else {
        spec_allowance(rules.skip(1), path)
    }
}

/// A group under construction or inside a parsed rule set.
#[derive(Debug, Clone)]
pub struct Entry {
    pub(crate) useragents: Vec<Vec<u8>>,
    pub(crate) rulelines: Vec<RuleLine>,
    pub(crate) crawl_delay: Option<Delay>,
    pub(crate) sitemaps: Vec<Vec<u8>>,
    pub(crate) req_rate: Option<RequestRate>,
}

impl View for Entry {
    type V = SpecEntry;

    open(crate) spec fn view(&self) -> SpecEntry {
        SpecEntry {
            agents: self.useragents@.map_values(|v: Vec<u8>| v@),
            rules: self.rulelines@.map_values(|r: RuleLine| r@),
            crawl_delay: self.crawl_delay,
            sitemaps: self.sitemaps@.map_values(|v: Vec<u8>| v@),
            req_rate: self.req_rate,
        }
    }
}

impl Entry {
    /// A fresh group with nothing recorded.
    pub fn new() -> (e: Entry)
        ensures
            e@ == spec_empty_entry(),
    {
        let e = Entry {
            useragents: Vec::new(),
            rulelines: Vec::new(),
            crawl_delay: None,
            sitemaps: Vec::new(),
            req_rate: None,
        };
        proof {
            assert(e@ =~= spec_empty_entry());
        }
        e
    }

    /// Does this group apply to the given agent string?
    pub fn applies_to(&self, useragent: &[u8]) -> (r: bool)
        ensures
            r == spec_entry_applies(self@, useragent@),
    {
        let token: Vec<u8> = match find_byte(useragent, SLASH) {
            Some(i) => {
                proof {
                    lemma_find(useragent@, SLASH);
                }
                to_lower(&useragent[0..i])
            },
            None => to_lower(useragent),
        };
        let mut k: usize = 0;
        while k < self.useragents.len()
            invariant
                0 <= k <= self.useragents@.len(),
                token@ == spec_agent_token(useragent@),
                forall|j: int|
                    0 <= j < k ==> !((#[trigger] self@.agents[j]) == seq![STAR] || spec_contains(
                        spec_agent_token(useragent@),
                        self@.agents[j],
                    )),
            decreases self.useragents@.len() - k,
        {
            let agent = &self.useragents[k];
            proof {
                assert(self@.agents[k as int] == self.useragents@[k as int]@);
            }
            if agent.len() == 1 && agent[0] == STAR {
                proof {
                    assert(agent@ =~= seq![STAR]);
                }
                return true;
            }
            proof {
                assert(seq![STAR].len() == 1);
                assert(agent@ != seq![STAR]);
            }
            if contains_bytes(token.as_slice(), agent.as_slice()) {
                return true;
            }
            k += 1;
        }
        false
    }

    /// What this group says about a decoded path.
    pub fn allowance(&self, filename: &[u8]) -> (r: bool)
        ensures
            r == spec_allowance(self@.rules, filename@),
    {
        let mut i: usize = 0;
        proof {
            assert(self@.rules.skip(0) =~= self@.rules);
        }
        while i < self.rulelines.len()
            invariant
                0 <= i <= self.rulelines@.len(),
                self@.rules.len() == self.rulelines@.len(),
                spec_allowance(self@.rules.skip(i as int), filename@) == spec_allowance(
                    self@.rules,
                    filename@,
                ),
            decreases self.rulelines@.len() - i,
        {
            let line = &self.rulelines[i];
            proof {
                assert(self@.rules.skip(i as int)[0] == self@.rules[i as int]);
                assert(self@.rules[i as int] == self.rulelines@[i as int]@);
                assert(self@.rules.skip(i as int).skip(1) =~= self@.rules.skip(i + 1));
            }
            if line.applies_to(filename) {
                return line.allowance;
            }
            i += 1;
        }
        true
    }

    /// Records an agent token, lower-cased; duplicates are kept.
    pub fn push_useragent(&mut self, useragent: &[u8])
        ensures
            final(self)@.agents == old(self)@.agents.push(spec_lower(useragent@)),
            final(self)@.rules == old(self)@.rules,
            final(self)@.crawl_delay == old(self)@.crawl_delay,
            final(self)@.sitemaps == old(self)@.sitemaps,
            final(self)@.req_rate == old(self)@.req_rate,
    {
        let low = to_lower(useragent);
        self.useragents.push(low);
        proof {
            assert(self@.agents =~= old(self)@.agents.push(spec_lower(useragent@)));
        }
    }

    /// Appends a rule, preserving order.
    pub fn push_ruleline(&mut self, ruleline: RuleLine)
        ensures
            final(self)@.agents == old(self)@.agents,
            final(self)@.rules == old(self)@.rules.push(ruleline@),
            final(self)@.crawl_delay == old(self)@.crawl_delay,
            final(self)@.sitemaps == old(self)@.sitemaps,
            final(self)@.req_rate == old(self)@.req_rate,
    {
        self.rulelines.push(ruleline);
        proof {
            assert(self@.rules =~= old(self)@.rules.push(ruleline@));
        }
    }

    /// Exact membership test among the stored (already lower-cased) tokens;
    /// used to spot the `*` sentinel.
    pub fn has_useragent(&self, useragent: &[u8]) -> (r: bool)
        ensures
            r == self@.agents.contains(useragent@),
    {
        let mut k: usize = 0;
        while k < self.useragents.len()
            invariant
                0 <= k <= self.useragents@.len(),
                forall|j: int| 0 <= j < k ==> (#[trigger] self@.agents[j]) != useragent@,
            decreases self.useragents@.len() - k,
        {
            proof {
                assert(self@.agents[k as int] == self.useragents@[k as int]@);
            }
            if bytes_eq(self.useragents[k].as_slice(), useragent) {
                return true;
            }
            k += 1;
        }
        false
    }

    /// True iff no agents and no rules were recorded.
    pub fn is_empty(&self) -> (r: bool)
        ensures
            r == spec_entry_is_empty(self@),
    {
        self.useragents.len() == 0 && self.rulelines.len() == 0
    }

    /// Sets the crawl delay.
    pub fn set_crawl_delay(&mut self, delay: Delay)
        ensures
            final(self)@.agents == old(self)@.agents,
            final(self)@.rules == old(self)@.rules,
            final(self)@.crawl_delay == Some(delay),
            final(self)@.sitemaps == old(self)@.sitemaps,
            final(self)@.req_rate == old(self)@.req_rate,
    {
        self.crawl_delay = Some(delay);
    }

    /// The crawl delay, if one was set.
    pub fn crawl_delay(&self) -> (r: Option<Delay>)
        ensures
            r == self@.crawl_delay,
    {
        self.crawl_delay
    }

    /// Appends the sitemap URL when the `url` crate accepts it.
    pub fn add_sitemap(&mut self, url: &[u8])
        ensures
            final(self)@.agents == old(self)@.agents,
            final(self)@.rules == old(self)@.rules,
            final(self)@.crawl_delay == old(self)@.crawl_delay,
            final(self)@.sitemaps == if url_parse_ok(url@) {
                old(self)@.sitemaps.push(url@)
            } else {
                old(self)@.sitemaps
            },
            final(self)@.req_rate == old(self)@.req_rate,
    {
        if is_parsable_url(url) {
            let copy = vstd::slice::slice_to_vec(url);
            self.sitemaps.push(copy);
            proof {
                assert(self@.sitemaps =~= old(self)@.sitemaps.push(url@));
            }
        }
    }

    /// The recorded sitemap URLs, in order.
    pub fn sitemaps(&self) -> (r: &Vec<Vec<u8>>)
        ensures
            r@.map_values(|v: Vec<u8>| v@) == self@.sitemaps,
    {
        &self.sitemaps
    }

    /// Sets the request rate.
    pub fn set_request_rate(&mut self, req_rate: RequestRate)
        ensures
            final(self)@.agents == old(self)@.agents,
            final(self)@.rules == old(self)@.rules,
            final(self)@.crawl_delay == old(self)@.crawl_delay,
            final(self)@.sitemaps == old(self)@.sitemaps,
            final(self)@.req_rate == Some(req_rate),
    {
        self.req_rate = Some(req_rate);
    }

    /// The request rate, if one was set.
    pub fn request_rate(&self) -> (r: Option<RequestRate>)
        ensures
            r == self@.req_rate,
    {
        self.req_rate
    }
}

impl Default for Entry {
    /// Same as `Entry::new`: a group with nothing recorded.
    fn default() -> (e: Entry)
        ensures
            e@ == spec_empty_entry(),
    {
        Entry::new()
    }
}

} // verus!
