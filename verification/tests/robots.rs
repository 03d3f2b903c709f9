use robotstxt::{Delay, RequestRate, RobotFileParser};

#[test]
fn doc_example() {
    let p = RobotFileParser::parse(
        b"User-agent: crawler1\nAllow: /not_here/but_here\nDisallow:/not_here/\n",
    );
    assert!(p.can_fetch(b"crawler1", b"/not_here/but_here"));
    assert!(!p.can_fetch(b"crawler1", b"/not_here/no_way"));
}

#[test]
fn first_match_wins_over_specificity() {
    let p = RobotFileParser::parse(b"User-agent: crawler\nDisallow: /x\nAllow: /x/y\n");
    // the broader /x rule is first, so it decides
    assert!(!p.can_fetch(b"crawler", b"/x/y"));
    assert!(!p.can_fetch(b"crawler", b"/x"));
    assert!(p.can_fetch(b"crawler", b"/z"));
}

#[test]
fn empty_disallow_allows_everything() {
    let p = RobotFileParser::parse(b"User-agent: crawler\nDisallow:\n");
    assert!(p.can_fetch(b"crawler", b"/anything"));
    assert!(p.can_fetch(b"crawler", b"/"));
    assert!(p.can_fetch(b"someone-else", b"/deep/path"));
}

#[test]
fn agent_matching_is_substring_on_product_token() {
    let p = RobotFileParser::parse(b"User-agent: bot\nDisallow: /\n");
    assert!(!p.can_fetch(b"ExampleBot/2.0", b"/page"));
    assert!(!p.can_fetch(b"bot", b"/page"));
    assert!(p.can_fetch(b"spider/1.0", b"/page"));
}

#[test]
fn default_group_fallback_only_for_can_fetch() {
    let p = RobotFileParser::parse(
        b"User-agent: special\nDisallow: /priv\n\nUser-agent: *\nDisallow: /\nCrawl-delay: 5\nRequest-rate: 1/5\nSitemap: https://example.com/map.xml\n",
    );
    // can_fetch falls back to the * group
    assert!(!p.can_fetch(b"unknown", b"/page"));
    // the three metadata queries never consult the * group
    assert_eq!(p.crawl_delay(b"unknown"), None);
    assert_eq!(p.sitemaps(b"unknown"), None);
    assert_eq!(p.request_rate(b"unknown"), None);
    // the explicit group still answers for its own agent
    assert!(!p.can_fetch(b"special", b"/priv/x"));
    assert!(p.can_fetch(b"special", b"/public"));
}

#[test]
fn first_wildcard_block_wins() {
    let p = RobotFileParser::parse(
        b"User-agent: *\nDisallow: /a\n\nUser-agent: *\nDisallow: /b\n",
    );
    assert!(!p.can_fetch(b"anyone", b"/a"));
    // the second * block was discarded entirely
    assert!(p.can_fetch(b"anyone", b"/b"));
}

#[test]
fn agent_only_block_contributes_nothing() {
    let p = RobotFileParser::parse(b"User-agent: ghost\n\nUser-agent: real\nDisallow: /\n");
    // the ghost block was dropped at the blank line
    assert!(p.can_fetch(b"ghost", b"/page"));
    assert!(!p.can_fetch(b"real", b"/page"));
}

#[test]
fn no_group_and_no_default_fails_open() {
    let p = RobotFileParser::parse(b"User-agent: zzz\nDisallow: /\n");
    assert!(p.can_fetch(b"unrelated", b"/page"));
}

#[test]
fn percent_encoded_paths_decode_before_comparison() {
    let p = RobotFileParser::parse(b"User-agent: crawler\nDisallow: %2Fsecret\n");
    assert!(!p.can_fetch(b"crawler", b"/secret"));
    assert!(!p.can_fetch(b"crawler", b"%2Fsecret"));
    assert!(p.can_fetch(b"crawler", b"/other"));
}

#[test]
fn request_rate_parses_two_integers() {
    let p = RobotFileParser::parse(b"User-agent: crawler\nRequest-rate: 20/60\n");
    assert_eq!(
        p.request_rate(b"crawler"),
        Some(RequestRate { requests: 20, seconds: 60 })
    );
}

#[test]
fn request_rate_with_bad_half_stays_unset() {
    let p = RobotFileParser::parse(b"User-agent: crawler\nRequest-rate: 20/sixty\n");
    assert_eq!(p.request_rate(b"crawler"), None);
}

#[test]
fn crawl_delay_whole_and_fractional() {
    let p = RobotFileParser::parse(b"User-agent: a\nCrawl-delay: 4.5\n");
    assert_eq!(
        p.crawl_delay(b"a"),
        Some(Delay { secs: 4, nanos: 500_000_000 })
    );
    let q = RobotFileParser::parse(b"User-agent: a\nCrawl-delay: 7\n");
    assert_eq!(q.crawl_delay(b"a"), Some(Delay { secs: 7, nanos: 0 }));
    let r = RobotFileParser::parse(b"User-agent: a\nCrawl-delay: .25\n");
    assert_eq!(r.crawl_delay(b"a"), Some(Delay { secs: 0, nanos: 250_000_000 }));
}

#[test]
fn crawl_delay_truncates_fraction_to_nine_digits() {
    let p = RobotFileParser::parse(b"User-agent: a\nCrawl-delay: 1.1234567894\n");
    assert_eq!(
        p.crawl_delay(b"a"),
        Some(Delay { secs: 1, nanos: 123_456_789 })
    );
}

#[test]
fn bad_crawl_delay_stays_unset_but_advances_state() {
    let p = RobotFileParser::parse(b"User-agent: a\nCrawl-delay: soon\n");
    assert_eq!(p.crawl_delay(b"a"), None);
    // the group was still committed at end of input
    assert!(p.can_fetch(b"a", b"/anything"));
}

#[test]
fn sitemap_keeps_valid_urls_and_drops_the_rest() {
    let p = RobotFileParser::parse(
        b"User-agent: a\nSitemap: https://example.com/s.xml\nSitemap: notaurl\n",
    );
    let expected: Vec<Vec<u8>> = vec![b"https://example.com/s.xml".to_vec()];
    assert_eq!(p.sitemaps(b"a"), Some(&expected));
}

#[test]
fn comments_are_stripped_and_lines_trimmed() {
    let p = RobotFileParser::parse(b"  User-agent : crawler  # who\n  Disallow: /x  # what\n");
    assert!(!p.can_fetch(b"crawler", b"/x"));
    assert!(p.can_fetch(b"crawler", b"/y"));
}

#[test]
fn directives_before_any_agent_are_ignored() {
    let p = RobotFileParser::parse(b"Disallow: /x\nUser-agent: a\nDisallow: /y\n");
    assert!(p.can_fetch(b"a", b"/x"));
    assert!(!p.can_fetch(b"a", b"/y"));
}

#[test]
fn empty_input_allows_everything() {
    let p = RobotFileParser::parse(b"");
    assert!(p.can_fetch(b"anyone", b"/page"));
    assert_eq!(p.crawl_delay(b"anyone"), None);
    assert_eq!(p.sitemaps(b"anyone"), None);
    assert_eq!(p.request_rate(b"anyone"), None);
}

#[test]
fn unknown_directives_are_ignored() {
    let p = RobotFileParser::parse(b"User-agent: a\nNoindex: /z\nDisallow: /x\n");
    assert!(!p.can_fetch(b"a", b"/x"));
    assert!(p.can_fetch(b"a", b"/z"));
}

#[test]
fn star_path_rule_matches_everything() {
    let p = RobotFileParser::parse(b"User-agent: a\nDisallow: *\n");
    assert!(!p.can_fetch(b"a", b"/any/path"));
}

#[test]
fn empty_url_is_treated_as_root() {
    let p = RobotFileParser::parse(b"User-agent: a\nDisallow: /\n");
    assert!(!p.can_fetch(b"a", b""));
    assert!(!p.can_fetch(b"a", b"   "));
}

#[test]
fn directive_names_and_agents_fold_case() {
    let p = RobotFileParser::parse(b"USER-AGENT: CRAWLER\nDISALLOW: /x\n");
    assert!(!p.can_fetch(b"Crawler/3.1", b"/x"));
    assert!(p.can_fetch(b"Crawler/3.1", b"/y"));
}

#[test]
fn carriage_returns_are_trimmed() {
    let p = RobotFileParser::parse(b"User-agent: a\r\nDisallow: /x\r\n");
    assert!(!p.can_fetch(b"a", b"/x"));
}

#[test]
fn several_agents_share_one_group() {
    let p = RobotFileParser::parse(b"User-agent: alpha\nUser-agent: beta\nDisallow: /x\n");
    assert!(!p.can_fetch(b"alpha", b"/x"));
    assert!(!p.can_fetch(b"beta", b"/x"));
    assert!(p.can_fetch(b"gamma-but-not-matching", b"/x"));
}

#[test]
fn whitespace_only_line_does_not_end_a_block() {
    // the line of spaces is not empty before trimming, so the block goes on
    let p = RobotFileParser::parse(b"User-agent: a\n   \nDisallow: /x\n");
    assert!(!p.can_fetch(b"a", b"/x"));
}

#[test]
fn agent_values_percent_decode() {
    let p = RobotFileParser::parse(b"User-agent: %41gent\nDisallow: /x\n");
    assert!(!p.can_fetch(b"Agent/1.0", b"/x"));
}

#[test]
fn allow_rule_grants_before_later_disallow() {
    let p = RobotFileParser::parse(b"User-agent: a\nAllow: /ok\nDisallow: /\n");
    assert!(p.can_fetch(b"a", b"/ok"));
    assert!(!p.can_fetch(b"a", b"/no"));
}
