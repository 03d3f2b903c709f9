//! Laws of the rule set, stated over the spec-level model and proved once
//! for every input.

use vstd::prelude::*;
use crate::entry::{SpecEntry, spec_empty_entry, spec_entry_is_empty, spec_entry_applies,
    spec_allowance, spec_agent_token};
use crate::parser::{SpecParser, ParseState, spec_add_entry, spec_step, spec_can_fetch,
    spec_crawl_delay, spec_sitemaps, spec_request_rate, spec_first_match, spec_query_path};
use crate::rule::{SpecRule, spec_rule_new, spec_rule_applies};
use crate::text::{STAR, spec_contains};

verus! {

/// The first applying group comes from the list it was chosen from, and
/// `None` means no group in the list applies.
proof fn lemma_first_match_in(entries: Seq<SpecEntry>, ua: Seq<u8>)
    ensures
        match spec_first_match(entries, ua) {
            Some(e) => entries.contains(e) && spec_entry_applies(e, ua),
            None => forall|k: int|
                0 <= k < entries.len() ==> !spec_entry_applies(#[trigger] entries[k], ua),
        },
    decreases entries.len(),
{
    if entries.len() > 0 {
        if spec_entry_applies(entries[0], ua) {
            assert(entries.contains(entries[0]));
        } else {
            lemma_first_match_in(entries.skip(1), ua);
            match spec_first_match(entries.skip(1), ua) {
                Some(e) => {
                    let w = choose|w: int|
                        0 <= w < entries.skip(1).len() && entries.skip(1)[w] == e;
                    assert(entries[w + 1] == e);
                },
                None => {
                    assert forall|k: int|
                        0 <= k < entries.len() implies !spec_entry_applies(entries[k], ua) by {
                        if k > 0 {
                            assert(entries.skip(1)[k - 1] == entries[k]);
                        }
                    }
                },
            }
        }
    }
}

/// When no group in the list applies, the first match is `None`.
proof fn lemma_first_match_none(entries: Seq<SpecEntry>, ua: Seq<u8>)
    requires
        forall|k: int| 0 <= k < entries.len() ==> !spec_entry_applies(#[trigger] entries[k], ua),
    ensures
        spec_first_match(entries, ua) is None,
    decreases entries.len(),
{
    if entries.len() > 0 {
        assert(!spec_entry_applies(entries[0], ua));
        assert forall|k: int|
            0 <= k < entries.skip(1).len() implies !spec_entry_applies(
            #[trigger] entries.skip(1)[k],
            ua,
        ) by {
            assert(entries.skip(1)[k] == entries[k + 1]);
        }
        lemma_first_match_none(entries.skip(1), ua);
    }
}

/// Fail-open: with no global override, no applying explicit group and no
/// default group, the fetch is allowed — absence of policy grants access.
pub proof fn lemma_fail_open(p: SpecParser, ua: Seq<u8>, url: Seq<u8>)
    requires
        !p.disallow_all,
        forall|k: int| 0 <= k < p.entries.len() ==> !spec_entry_applies(#[trigger] p.entries[k], ua),
        spec_entry_is_empty(p.default_entry),
    ensures
        spec_can_fetch(p, ua, url),
{
    lemma_first_match_none(p.entries, ua);
}

/// The fallback asymmetry: when no explicit group applies but a default `*`
/// group exists, `can_fetch` is decided by the default group, while the
/// crawl delay, sitemaps and request rate come back absent — those three
/// never consult the default group.
pub proof fn lemma_default_fallback_asymmetry(p: SpecParser, ua: Seq<u8>, url: Seq<u8>)
    requires
        !p.disallow_all,
        !p.allow_all,
        forall|k: int| 0 <= k < p.entries.len() ==> !spec_entry_applies(#[trigger] p.entries[k], ua),
        !spec_entry_is_empty(p.default_entry),
    ensures
        spec_can_fetch(p, ua, url) == spec_allowance(p.default_entry.rules, spec_query_path(url)),
        spec_crawl_delay(p, ua) is None,
        spec_sitemaps(p, ua) is None,
        spec_request_rate(p, ua) is None,
{
    lemma_first_match_none(p.entries, ua);
}

/// The first `*` block wins: once a default group is set, committing
/// another group that declares `*` changes nothing at all, so the later
/// block's directives are unreachable.
pub proof fn lemma_first_default_wins(p: SpecParser, e: SpecEntry)
    requires
        e.agents.contains(seq![STAR]),
        !spec_entry_is_empty(p.default_entry),
    ensures
        spec_add_entry(p, e) == p,
{
}

/// A `user-agent` block with no directive line before a blank line
/// contributes nothing: the blank line drops the open group, and the rule
/// set passes through untouched.
pub proof fn lemma_agent_only_block_dropped(
    m: ParseState,
    e: SpecEntry,
    p: SpecParser,
    line: Seq<u8>,
)
    requires
        m == ParseState::SawAgent,
        line.len() == 0,
    ensures
        spec_step(m, e, p, line) == (ParseState::Start, spec_empty_entry(), p),
{
    assert(spec_step(m, e, p, line).2 == p);
}

/// An empty `Disallow:` value normalizes to an allow-everything rule: it
/// applies to every path, and it allows.
pub proof fn lemma_empty_disallow_allows_all(path: Seq<u8>)
    ensures
        spec_rule_new(Seq::empty(), false).allow,
        spec_allowance(seq![spec_rule_new(Seq::empty(), false)], path),
{
    let r = spec_rule_new(Seq::empty(), false);
    assert(path.take(0) =~= Seq::<u8>::empty());
    assert(spec_rule_applies(r, path));
    assert(seq![r][0] == r);
}

/// Under a rule set whose every group holds only the normalized
/// empty-`Disallow` rule, every agent may fetch every URL.
pub proof fn lemma_empty_disallow_ruleset(p: SpecParser, ua: Seq<u8>, url: Seq<u8>)
    requires
        !p.disallow_all,
        forall|k: int|
            0 <= k < p.entries.len() ==> (#[trigger] p.entries[k]).rules == seq![
                spec_rule_new(Seq::empty(), false),
            ],
        spec_entry_is_empty(p.default_entry) || p.default_entry.rules == seq![
            spec_rule_new(Seq::empty(), false),
        ],
    ensures
        spec_can_fetch(p, ua, url),
{
    if !p.allow_all {
        lemma_first_match_in(p.entries, ua);
        lemma_empty_disallow_allows_all(spec_query_path(url));
        match spec_first_match(p.entries, ua) {
            Some(e) => {
                let w = choose|w: int| 0 <= w < p.entries.len() && p.entries[w] == e;
                assert(p.entries[w].rules == seq![spec_rule_new(Seq::empty(), false)]);
            },
            None => {},
        }
    }
}

/// First match wins among rules: as soon as the first rule of a group
/// applies to a path it decides the answer, whatever later rules say.
pub proof fn lemma_first_rule_wins(rules: Seq<SpecRule>, path: Seq<u8>)
    requires
        rules.len() > 0,
        spec_rule_applies(rules[0], path),
    ensures
        spec_allowance(rules, path) == rules[0].allow,
{
}

/// Agent matching is substring containment over the lower-cased pre-`/`
/// token: a group applies as soon as one of its stored tokens occurs inside
/// that token.
pub proof fn lemma_agent_substring_matches(e: SpecEntry, ua: Seq<u8>, k: int)
    requires
        0 <= k < e.agents.len(),
        spec_contains(spec_agent_token(ua), e.agents[k]),
    ensures
        spec_entry_applies(e, ua),
{
}

} // verus!
