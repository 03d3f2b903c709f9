//! The robots.txt parser: a line-oriented state machine that builds groups
//! of rules, and the queries that resolve an agent and a path against them.

use vstd::prelude::*;
use crate::entry::{Entry, SpecEntry, spec_empty_entry, spec_entry_is_empty, spec_entry_applies,
    spec_allowance};
use crate::numbers::{Delay, RequestRate, parse_delay, parse_rate, spec_parse_delay,
    spec_parse_rate};
use crate::percent::{spec_decoded, decode_value};
use crate::rule::{RuleLine, spec_rule_new};
use crate::text::{NL, HASH, COLON, SLASH, STAR, spec_find, lemma_find, find_byte, spec_trim,
    trim_bytes, spec_lower, to_lower};
use crate::urlcheck::url_parse_ok;

verus! {

/// Parser states: before any block, after a `user-agent` line, after a
/// directive line.
#[derive(Clone, Copy, Debug, PartialEq, Eq, Structural)]
pub enum ParseState {
    Start,
    SawAgent,
    SawRule,
}

/// The model of a parsed rule set.
#[verifier::ext_equal]
pub ghost struct SpecParser {
    pub entries: Seq<SpecEntry>,
    pub default_entry: SpecEntry,
    pub disallow_all: bool,
    pub allow_all: bool,
}

/// The rule set parsing starts from: nothing recorded, no global override.
pub open spec fn spec_empty_parser() -> SpecParser {
    SpecParser {
        entries: Seq::empty(),
        default_entry: spec_empty_entry(),
        disallow_all: false,
        allow_all: false,
    }
}

/// Committing a finished group: a group that declares `*` becomes the
/// default only when no default is set yet (the first `*` block wins, later
/// ones are discarded); any other group is appended in order.
pub open spec fn spec_add_entry(p: SpecParser, e: SpecEntry) -> SpecParser {
    if e.agents.contains(seq![STAR]) {
        if spec_entry_is_empty(p.default_entry) {
            SpecParser { default_entry: e, ..p }
        } else {
            p
        }
    } else {
        SpecParser { entries: p.entries.push(e), ..p }
    }
}

/// The directives the parser recognizes.
#[derive(Clone, Copy, Debug, PartialEq, Eq, Structural)]
pub enum Directive {
    UserAgent,
    Disallow,
    Allow,
    CrawlDelay,
    Sitemap,
    Rate,
    Other,
}

/// The bytes of `user-agent`.
pub open spec fn kw_user_agent() -> Seq<u8> {
    seq![117u8, 115, 101, 114, 45, 97, 103, 101, 110, 116]
}

/// The bytes of `disallow`.
pub open spec fn kw_disallow() -> Seq<u8> {
    seq![100u8, 105, 115, 97, 108, 108, 111, 119]
}

/// The bytes of `allow`.
pub open spec fn kw_allow() -> Seq<u8> {
    seq![97u8, 108, 108, 111, 119]
}

/// The bytes of `crawl-delay`.
pub open spec fn kw_crawl_delay() -> Seq<u8> {
    seq![99u8, 114, 97, 119, 108, 45, 100, 101, 108, 97, 121]
}

/// The bytes of `sitemap`.
pub open spec fn kw_sitemap() -> Seq<u8> {
    seq![115u8, 105, 116, 101, 109, 97, 112]
}

/// The bytes of `request-rate`.
pub open spec fn kw_request_rate() -> Seq<u8> {
    seq![114u8, 101, 113, 117, 101, 115, 116, 45, 114, 97, 116, 101]
}

/// Which directive a lower-cased name denotes.
pub open spec fn spec_directive_of(name: Seq<u8>) -> Directive {
    if name == kw_user_agent() {
        Directive::UserAgent
    } else if name == kw_disallow() {
        Directive::Disallow
    } else if name == kw_allow() {
        Directive::Allow
    } else if name == kw_crawl_delay() {
        Directive::CrawlDelay
    } else if name == kw_sitemap() {
        Directive::Sitemap
    } else if name == kw_request_rate() {
        Directive::Rate
    } else {
        Directive::Other
    }
}

/// Classifies a lower-cased directive name.
fn directive_of(name: &Vec<u8>) -> (d: Directive)
    ensures
        d == spec_directive_of(name@),
{
    let n = name.len();
    if n == 10 && name[0] == 117 && name[1] == 115 && name[2] == 101 && name[3] == 114 && name[4]
        == 45 && name[5] == 97 && name[6] == 103 && name[7] == 101 && name[8] == 110 && name[9]
        == 116 {
        proof {
            assert(name@ =~= kw_user_agent());
        }
        Directive::UserAgent
    } else if n == 8 && name[0] == 100 && name[1] == 105 && name[2] == 115 && name[3] == 97
        && name[4] == 108 && name[5] == 108 && name[6] == 111 && name[7] == 119 {
        proof {
            assert(name@ =~= kw_disallow());
        }
        Directive::Disallow
    } else if n == 5 && name[0] == 97 && name[1] == 108 && name[2] == 108 && name[3] == 111
        && name[4] == 119 {
        proof {
            assert(name@ =~= kw_allow());
        }
        Directive::Allow
    } else if n == 11 && name[0] == 99 && name[1] == 114 && name[2] == 97 && name[3] == 119
        && name[4] == 108 && name[5] == 45 && name[6] == 100 && name[7] == 101 && name[8] == 108
        && name[9] == 97 && name[10] == 121 {
        proof {
            assert(name@ =~= kw_crawl_delay());
        }
        Directive::CrawlDelay
    } else if n == 7 && name[0] == 115 && name[1] == 105 && name[2] == 116 && name[3] == 101
        && name[4] == 109 && name[5] == 97 && name[6] == 112 {
        proof {
            assert(name@ =~= kw_sitemap());
        }
        Directive::Sitemap
    } else if n == 12 && name[0] == 114 && name[1] == 101 && name[2] == 113 && name[3] == 117
        && name[4] == 101 && name[5] == 115 && name[6] == 116 && name[7] == 45 && name[8] == 114
        && name[9] == 97 && name[10] == 116 && name[11] == 101 {
        proof {
            assert(name@ =~= kw_request_rate());
        }
        Directive::Rate
    } else {
        Directive::Other
    }
}

/// The value handed to a directive: trimmed, percent-decoded, and empty when
/// the decoded bytes are not valid UTF-8.
pub open spec fn spec_value(raw: Seq<u8>) -> Seq<u8> {
    spec_decoded(spec_trim(raw))
}

/// The line up to a `#` comment, or whole when there is none.
pub open spec fn spec_strip_comment(line: Seq<u8>) -> Seq<u8> {
    match spec_find(line, HASH) {
        Some(i) => line.take(i),
        None => line,
    }
}

/// What a blank line does: an agent-only block is dropped, a finished block
/// is committed, and the state returns to `Start`.
pub open spec fn spec_blank_step(m: ParseState, e: SpecEntry, p: SpecParser) -> (ParseState,
    SpecEntry, SpecParser) {
    match m {
        ParseState::Start => (m, e, p),
        ParseState::SawAgent => (ParseState::Start, spec_empty_entry(), p),
        ParseState::SawRule => (ParseState::Start, spec_empty_entry(), spec_add_entry(p, e)),
    }
}

/// What a recognized `name: value` line does to the parse state.
pub open spec fn spec_directive_step(
    m: ParseState,
    e: SpecEntry,
    p: SpecParser,
    name: Seq<u8>,
    value: Seq<u8>,
) -> (ParseState, SpecEntry, SpecParser) {
    match spec_directive_of(name) {
        Directive::UserAgent => {
            let ep = if m == ParseState::SawRule {
                (spec_empty_entry(), spec_add_entry(p, e))
            } else {
                (e, p)
            };
            (
                ParseState::SawAgent,
                SpecEntry { agents: ep.0.agents.push(spec_lower(value)), ..ep.0 },
                ep.1,
            )
        },
        Directive::Disallow => if m != ParseState::Start {
            (
                ParseState::SawRule,
                SpecEntry { rules: e.rules.push(spec_rule_new(value, false)), ..e },
                p,
            )
        } else {
            (m, e, p)
        },
        Directive::Allow => if m != ParseState::Start {
            (
                ParseState::SawRule,
                SpecEntry { rules: e.rules.push(spec_rule_new(value, true)), ..e },
                p,
            )
        } else {
            (m, e, p)
        },
        Directive::CrawlDelay => if m != ParseState::Start {
            match spec_parse_delay(value) {
                Some(d) => (ParseState::SawRule, SpecEntry { crawl_delay: Some(d), ..e }, p),
                None => (ParseState::SawRule, e, p),
            }
        } else {
            (m, e, p)
        },
        Directive::Sitemap => if m != ParseState::Start {
            (
                ParseState::SawRule,
                SpecEntry {
                    sitemaps: if url_parse_ok(value) {
                        e.sitemaps.push(value)
                    } else {
                        e.sitemaps
                    },
                    ..e
                },
                p,
            )
        } else {
            (m, e, p)
        },
        Directive::Rate => if m != ParseState::Start {
            match spec_parse_rate(value) {
                Some(r) => (ParseState::SawRule, SpecEntry { req_rate: Some(r), ..e }, p),
                None => (ParseState::SawRule, e, p),
            }
        } else {
            (m, e, p)
        },
        Directive::Other => (m, e, p),
    }
}

/// What one raw line does to the parse state.  A truly empty line triggers
/// the block transition; afterwards the comment is stripped, the line is
/// trimmed, and a `name: value` line is dispatched on its directive name.
pub open spec fn spec_step(m: ParseState, e: SpecEntry, p: SpecParser, line: Seq<u8>) -> (
    ParseState, SpecEntry, SpecParser) {
    let s1 = if line.len() == 0 {
        spec_blank_step(m, e, p)
    } else {
        (m, e, p)
    };
    let t = spec_trim(spec_strip_comment(line));
    if t.len() == 0 {
        s1
    } else {
        match spec_find(t, COLON) {
            None => s1,
            Some(i) => spec_directive_step(
                s1.0,
                s1.1,
                s1.2,
                spec_lower(spec_trim(t.take(i))),
                spec_value(t.skip(i + 1)),
            ),
        }
    }
}

/// The text split at every line feed; the final segment is a line too.
pub open spec fn spec_lines(s: Seq<u8>) -> Seq<Seq<u8>>
    decreases s.len(),
{
    match spec_find(s, NL) {
        Some(i) => if 0 <= i < s.len() {
            seq![s.take(i)] + spec_lines(s.skip(i + 1))
        } else {
            seq![s]
        },
        None => seq![s],
    }
}

/// Folding `spec_step` over a list of lines.
pub open spec fn spec_fold(m: ParseState, e: SpecEntry, p: SpecParser, lines: Seq<Seq<u8>>) -> (
    ParseState, SpecEntry, SpecParser)
    decreases lines.len(),
{
    if lines.len() == 0 {
        (m, e, p)
    } else {
        let s1 = spec_step(m, e, p, lines[0]);
        spec_fold(s1.0, s1.1, s1.2, lines.skip(1))
    }
}

/// The rule set a robots.txt text parses to: the line fold, with a block
/// still open at the end committed.
pub open spec fn spec_parse(text: Seq<u8>) -> SpecParser {
    let s = spec_fold(
        ParseState::Start,
        spec_empty_entry(),
        spec_empty_parser(),
        spec_lines(text),
    );
    if s.0 == ParseState::SawRule {
        spec_add_entry(s.2, s.1)
    } else {
        s.2
    }
}

/// The first group in declaration order that applies to the agent.
pub open spec fn spec_first_match(entries: Seq<SpecEntry>, ua: Seq<u8>) -> Option<SpecEntry>
    decreases entries.len(),
{
    if entries.len() == 0 {
        None
    } else if spec_entry_applies(entries[0], ua) {
        Some(entries[0])
    } else {
        spec_first_match(entries.skip(1), ua)
    }
}

/// The path a query URL normalizes to: trimmed, decoded, `/` when empty.
pub open spec fn spec_query_path(url: Seq<u8>) -> Seq<u8> {
    let d = spec_decoded(spec_trim(url));
    if d.len() == 0 {
        seq![SLASH]
    } else {
        d
    }
}

/// The fetch decision: a global override first; then the first applying
/// explicit group; then the default `*` group when one exists; otherwise the
/// fail-open answer, true.
pub open spec fn spec_can_fetch(p: SpecParser, ua: Seq<u8>, url: Seq<u8>) -> bool {
    if p.disallow_all {
        false
    } else if p.allow_all {
        true
    } else {
        let path = spec_query_path(url);
        match spec_first_match(p.entries, ua) {
            Some(e) => spec_allowance(e.rules, path),
            None => if !spec_entry_is_empty(p.default_entry) {
                spec_allowance(p.default_entry.rules, path)
            } else {
                true
            },
        }
    }
}

/// The crawl delay of the first applying explicit group; the default group
/// is never consulted.
pub open spec fn spec_crawl_delay(p: SpecParser, ua: Seq<u8>) -> Option<Delay> {
    match spec_first_match(p.entries, ua) {
        Some(e) => e.crawl_delay,
        None => None,
    }
}

/// The sitemaps of the first applying explicit group; the default group is
/// never consulted.
pub open spec fn spec_sitemaps(p: SpecParser, ua: Seq<u8>) -> Option<Seq<Seq<u8>>> {
    match spec_first_match(p.entries, ua) {
        Some(e) => Some(e.sitemaps),
        None => None,
    }
}

/// The request rate of the first applying explicit group; the default group
/// is never consulted.
pub open spec fn spec_request_rate(p: SpecParser, ua: Seq<u8>) -> Option<RequestRate> {
    match spec_first_match(p.entries, ua) {
        Some(e) => e.req_rate,
        None => None,
    }
}

/// robots.txt file parser: the explicit groups, the default `*` group, and
/// two reserved global overrides (never set by parsing itself).
#[derive(Debug, Clone)]
pub struct RobotFileParser {
    pub(crate) entries: Vec<Entry>,
    pub(crate) default_entry: Entry,
    pub(crate) disallow_all: bool,
    pub(crate) allow_all: bool,
}

impl View for RobotFileParser {
    type V = SpecParser;

    open(crate) spec fn view(&self) -> SpecParser {
        SpecParser {
            entries: self.entries@.map_values(|e: Entry| e@),
            default_entry: self.default_entry@,
            disallow_all: self.disallow_all,
            allow_all: self.allow_all,
        }
    }
}

/// A one-byte `*`, the wildcard agent sentinel.
fn star_bytes() -> (v: Vec<u8>)
    ensures
        v@ == seq![STAR],
{
    let mut v: Vec<u8> = Vec::new();
    v.push(STAR);
    proof {
        assert(v@ =~= seq![STAR]);
    }
    v
}

impl RobotFileParser {
    /// Commits a finished group into the rule set.
    fn _add_entry(&mut self, entry: Entry)
        ensures
            final(self)@ == spec_add_entry(old(self)@, entry@),
    {
        let star = star_bytes();
        if entry.has_useragent(star.as_slice()) {
            if self.default_entry.is_empty() {
                self.default_entry = entry;
                proof {
                    assert(self@ =~= spec_add_entry(old(self)@, self.default_entry@));
                }
            }
        } else {
            let ghost before = self@;
            self.entries.push(entry);
            proof {
                assert(self@.entries =~= before.entries.push(self.entries@.last()@));
                assert(self@ =~= spec_add_entry(before, self.entries@.last()@));
            }
        }
    }

    /// Runs one raw line through the state machine.
    fn step_line(m: ParseState, e: Entry, p: RobotFileParser, line: &[u8]) -> (r: (ParseState,
        Entry, RobotFileParser))
        ensures
            ({
                let s = spec_step(m, e@, p@, line@);
                r.0 == s.0 && r.1@ == s.1 && r.2@ == s.2
            }),
    {
        let ghost m0 = m;
        let ghost e0 = e@;
        let ghost p0 = p@;
        let mut m = m;
        let mut e = e;
        let mut p = p;
        if line.len() == 0 {
            match m {
                ParseState::SawAgent => {
                    e = Entry::new();
                    m = ParseState::Start;
                },
                ParseState::SawRule => {
                    p._add_entry(e);
                    e = Entry::new();
                    m = ParseState::Start;
                },
                ParseState::Start => {},
            }
        }
        let ghost s1 = if line@.len() == 0 {
            spec_blank_step(m0, e0, p0)
        } else {
            (m0, e0, p0)
        };
        proof {
            assert(m == s1.0 && e@ == s1.1 && p@ == s1.2);
        }
        let stripped: &[u8] = match find_byte(line, HASH) {
            Some(i) => {
                proof {
                    lemma_find(line@, HASH);
                }
                &line[0..i]
            },
            None => line,
        };
        proof {
            assert(stripped@ == spec_strip_comment(line@));
        }
        let t = trim_bytes(stripped);
        if t.len() == 0 {
            return (m, e, p);
        }
        match find_byte(t, COLON) {
            None => (m, e, p),
            Some(ci) => {
                proof {
                    lemma_find(t@, COLON);
                }
                let n = t.len();
                let part0 = to_lower(trim_bytes(&t[0..ci]));
                let part1 = decode_value(trim_bytes(&t[ci + 1..n]));
                proof {
                    assert(part0@ == spec_lower(spec_trim(t@.take(ci as int))));
                    assert(part1@ == spec_value(t@.skip(ci + 1)));
                }
                let d = directive_of(&part0);
                match d {
                    Directive::UserAgent => {
                        if m == ParseState::SawRule {
                            p._add_entry(e);
                            e = Entry::new();
                        }
                        e.push_useragent(part1.as_slice());
                        m = ParseState::SawAgent;
                        proof {
                            let s = spec_step(m0, e0, p0, line@);
                            assert(e@ =~= s.1);
                        }
                        (m, e, p)
                    },
                    Directive::Disallow => {
                        if m != ParseState::Start {
                            e.push_ruleline(RuleLine::new(part1, false));
                            m = ParseState::SawRule;
                            proof {
                                let s = spec_step(m0, e0, p0, line@);
                                assert(e@ =~= s.1);
                            }
                        }
                        (m, e, p)
                    },
                    Directive::Allow => {
                        if m != ParseState::Start {
                            e.push_ruleline(RuleLine::new(part1, true));
                            m = ParseState::SawRule;
                            proof {
                                let s = spec_step(m0, e0, p0, line@);
                                assert(e@ =~= s.1);
                            }
                        }
                        (m, e, p)
                    },
                    Directive::CrawlDelay => {
                        if m != ParseState::Start {
                            match parse_delay(part1.as_slice()) {
                                Some(delay) => {
                                    e.set_crawl_delay(delay);
                                    proof {
                                        let s = spec_step(m0, e0, p0, line@);
                                        assert(e@ =~= s.1);
                                    }
                                },
                                None => {},
                            }
                            m = ParseState::SawRule;
                        }
                        (m, e, p)
                    },
                    Directive::Sitemap => {
                        if m != ParseState::Start {
                            e.add_sitemap(part1.as_slice());
                            m = ParseState::SawRule;
                            proof {
                                let s = spec_step(m0, e0, p0, line@);
                                assert(e@ =~= s.1);
                            }
                        }
                        (m, e, p)
                    },
                    Directive::Rate => {
                        if m != ParseState::Start {
                            match parse_rate(part1.as_slice()) {
                                Some(rate) => {
                                    e.set_request_rate(rate);
                                    proof {
                                        let s = spec_step(m0, e0, p0, line@);
                                        assert(e@ =~= s.1);
                                    }
                                },
                                None => {},
                            }
                            m = ParseState::SawRule;
                        }
                        (m, e, p)
                    },
                    Directive::Other => (m, e, p),
                }
            },
        }
    }

    /// Parses robots.txt text into a rule set.  Total: every text, however
    /// malformed, yields a rule set, and both loops provably terminate.
    pub fn parse(robots_txt: &[u8]) -> (res: RobotFileParser)
        ensures
            res@ == spec_parse(robots_txt@),
    {
        let mut this = RobotFileParser {
            entries: Vec::new(),
            default_entry: Entry::new(),
            disallow_all: false,
            allow_all: false,
        };
        proof {
            assert(this@ =~= spec_empty_parser());
        }
        let mut state = ParseState::Start;
        let mut entry = Entry::new();
        let mut pos: usize = 0;
        let mut done = false;
        let ghost whole = spec_fold(
            ParseState::Start,
            spec_empty_entry(),
            spec_empty_parser(),
            spec_lines(robots_txt@),
        );
        proof {
            assert(robots_txt@.skip(0) =~= robots_txt@);
        }
        while !done
            invariant
                0 <= pos <= robots_txt@.len(),
                !done ==> spec_fold(state, entry@, this@, spec_lines(robots_txt@.skip(pos as int)))
                    == whole,
                done ==> state == whole.0 && entry@ == whole.1 && this@ == whole.2,
            decreases robots_txt@.len() - pos + (if done {
                0int
            } else {
                1int
            }),
        {
            let n = robots_txt.len();
            let ghost rem = robots_txt@.skip(pos as int);
            match find_byte(&robots_txt[pos..n], NL) {
                Some(j) => {
                    proof {
                        lemma_find(rem, NL);
                        assert(rem.take(j as int) =~= robots_txt@.subrange(
                            pos as int,
                            pos + j as int,
                        ));
                        assert(rem.skip(j + 1) =~= robots_txt@.skip(pos + j + 1));
                        let lines = spec_lines(rem);
                        assert(lines == seq![rem.take(j as int)] + spec_lines(rem.skip(j + 1)));
                        assert(lines[0] == rem.take(j as int));
                        assert(lines.skip(1) =~= spec_lines(rem.skip(j + 1)));
                    }
                    let line = &robots_txt[pos..pos + j];
                    let r = Self::step_line(state, entry, this, line);
                    state = r.0;
                    entry = r.1;
                    this = r.2;
                    pos = pos + j + 1;
                },
                None => {
                    proof {
                        lemma_find(rem, NL);
                        let lines = spec_lines(rem);
                        assert(lines == seq![rem]);
                        assert(lines[0] == rem);
                        assert(lines.skip(1) =~= Seq::<Seq<u8>>::empty());
                    }
                    let ghost st_pre = (state, entry@, this@);
                    let line = &robots_txt[pos..n];
                    proof {
                        assert(line@ =~= rem);
                    }
                    let r = Self::step_line(state, entry, this, line);
                    state = r.0;
                    entry = r.1;
                    this = r.2;
                    done = true;
                    proof {
                        let s1 = spec_step(st_pre.0, st_pre.1, st_pre.2, rem);
                        assert(spec_fold(st_pre.0, st_pre.1, st_pre.2, seq![rem]) == spec_fold(
                            s1.0,
                            s1.1,
                            s1.2,
                            seq![rem].skip(1),
                        ));
                        assert(seq![rem].skip(1) =~= Seq::<Seq<u8>>::empty());
                        assert(spec_fold(s1.0, s1.1, s1.2, Seq::<Seq<u8>>::empty()) == s1);
                        assert(state == s1.0 && entry@ == s1.1 && this@ == s1.2);
                    }
                },
            }
        }
        if state == ParseState::SawRule {
            this._add_entry(entry);
        }
        this
    }

    /// Decides whether `useragent` may fetch `url` under this rule set.
    pub fn can_fetch(&self, useragent: &[u8], url: &[u8]) -> (r: bool)
        ensures
            r == spec_can_fetch(self@, useragent@, url@),
    {
        if self.disallow_all {
            return false;
        }
        if self.allow_all {
            return true;
        }
        let decoded = decode_value(trim_bytes(url));
        let path: Vec<u8> = if decoded.len() == 0 {
            root_path()
        } else {
            decoded
        };
        let mut i: usize = 0;
        proof {
            assert(self@.entries.skip(0) =~= self@.entries);
        }
        while i < self.entries.len()
            invariant
                0 <= i <= self.entries@.len(),
                !self@.disallow_all,
                !self@.allow_all,
                path@ == spec_query_path(url@),
                spec_first_match(self@.entries.skip(i as int), useragent@) == spec_first_match(
                    self@.entries,
                    useragent@,
                ),
            decreases self.entries@.len() - i,
        {
            let ent = &self.entries[i];
            proof {
                assert(self@.entries[i as int] == self.entries@[i as int]@);
                assert(self@.entries.skip(i as int)[0] == self@.entries[i as int]);
                assert(self@.entries.skip(i as int).skip(1) =~= self@.entries.skip(i + 1));
            }
            if ent.applies_to(useragent) {
                return ent.allowance(path.as_slice());
            }
            i += 1;
        }
        if !self.default_entry.is_empty() {
            return self.default_entry.allowance(path.as_slice());
        }
        true
    }

    /// The crawl delay recorded for this agent, from the explicit groups
    /// only.
    pub fn crawl_delay(&self, useragent: &[u8]) -> (r: Option<Delay>)
        ensures
            r == spec_crawl_delay(self@, useragent@),
    {
        let mut i: usize = 0;
        proof {
            assert(self@.entries.skip(0) =~= self@.entries);
        }
        while i < self.entries.len()
            invariant
                0 <= i <= self.entries@.len(),
                spec_first_match(self@.entries.skip(i as int), useragent@) == spec_first_match(
                    self@.entries,
                    useragent@,
                ),
            decreases self.entries@.len() - i,
        {
            let ent = &self.entries[i];
            proof {
                assert(self@.entries[i as int] == self.entries@[i as int]@);
                assert(self@.entries.skip(i as int)[0] == self@.entries[i as int]);
                assert(self@.entries.skip(i as int).skip(1) =~= self@.entries.skip(i + 1));
            }
            if ent.applies_to(useragent) {
                return ent.crawl_delay();
            }
            i += 1;
        }
        None
    }

    /// The sitemap URLs recorded for this agent, from the explicit groups
    /// only.
    pub fn sitemaps(&self, useragent: &[u8]) -> (r: Option<&Vec<Vec<u8>>>)
        ensures
            match r {
                Some(v) => spec_sitemaps(self@, useragent@) == Some(
                    v@.map_values(|x: Vec<u8>| x@),
                ),
                None => spec_sitemaps(self@, useragent@) is None,
            },
    {
        let mut i: usize = 0;
        proof {
            assert(self@.entries.skip(0) =~= self@.entries);
        }
        while i < self.entries.len()
            invariant
                0 <= i <= self.entries@.len(),
                spec_first_match(self@.entries.skip(i as int), useragent@) == spec_first_match(
                    self@.entries,
                    useragent@,
                ),
            decreases self.entries@.len() - i,
        {
            let ent = &self.entries[i];
            proof {
                assert(self@.entries[i as int] == self.entries@[i as int]@);
                assert(self@.entries.skip(i as int)[0] == self@.entries[i as int]);
                assert(self@.entries.skip(i as int).skip(1) =~= self@.entries.skip(i + 1));
            }
            if ent.applies_to(useragent) {
                return Some(ent.sitemaps());
            }
            i += 1;
        }
        None
    }

    /// The request rate recorded for this agent, from the explicit groups
    /// only.
    pub fn request_rate(&self, useragent: &[u8]) -> (r: Option<RequestRate>)
        ensures
            r == spec_request_rate(self@, useragent@),
    {
        let mut i: usize = 0;
        proof {
            assert(self@.entries.skip(0) =~= self@.entries);
        }
        while i < self.entries.len()
            invariant
                0 <= i <= self.entries@.len(),
                spec_first_match(self@.entries.skip(i as int), useragent@) == spec_first_match(
                    self@.entries,
                    useragent@,
                ),
            decreases self.entries@.len() - i,
        {
            let ent = &self.entries[i];
            proof {
                assert(self@.entries[i as int] == self.entries@[i as int]@);
                assert(self@.entries.skip(i as int)[0] == self@.entries[i as int]);
                assert(self@.entries.skip(i as int).skip(1) =~= self@.entries.skip(i + 1));
            }
            if ent.applies_to(useragent) {
                return ent.request_rate();
            }
            i += 1;
        }
        None
    }
}

/// A one-byte `/`, the path an empty query URL normalizes to.
fn root_path() -> (v: Vec<u8>)
    ensures
        v@ == seq![SLASH],
{
    let mut v: Vec<u8> = Vec::new();
    v.push(SLASH);
    proof {
        assert(v@ =~= seq![SLASH]);
    }
    v
}

} // verus!
