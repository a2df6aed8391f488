use adblock_oracle::engine::{evaluate, EvalError};
use adblock_oracle::index::build;
use adblock_oracle::oracle::Oracle;
use adblock_oracle::parser::parse_line;
use adblock_oracle::request::Request;

fn bv(s: &str) -> Vec<u8> {
    s.as_bytes().to_vec()
}

fn oracle(lines: &[&str]) -> Oracle {
    let lines: Vec<Vec<u8>> = lines.iter().map(|l| bv(l)).collect();
    Oracle::from_lines(&lines)
}

fn check(o: &Oracle, url: &str, origin: &str, rt: &str) -> Result<bool, EvalError> {
    o.check(bv(url), bv(origin), bv(rt))
}

#[test]
fn default_allow_with_no_matching_rule() {
    let o = oracle(&["||ads.example.com^"]);
    assert_eq!(check(&o, "http://good.com/page", "good.com", "script"), Ok(false));
    let empty = oracle(&[]);
    assert_eq!(check(&empty, "http://good.com/page", "good.com", "script"), Ok(false));
}

#[test]
fn single_matching_blocking_rule_blocks() {
    let o = oracle(&["||ads.example.com^"]);
    assert_eq!(check(&o, "http://ads.example.com/banner", "good.com", "script"), Ok(true));
}

#[test]
fn exception_at_equal_specificity_wins() {
    let o = oracle(&["||ads.example.com^", "@@||ads.example.com^"]);
    assert_eq!(check(&o, "http://ads.example.com/banner", "good.com", "script"), Ok(false));
}

#[test]
fn building_twice_gives_identical_verdicts() {
    let lines = ["||ads.example.com^", "@@||ads.example.com/ok^", "track$third-party"];
    let o1 = oracle(&lines);
    let o2 = oracle(&lines);
    let queries = [
        ("http://ads.example.com/banner", "good.com", "script"),
        ("http://ads.example.com/ok", "good.com", "script"),
        ("http://cdn.com/track", "site.com", "script"),
        ("http://cdn.com/none", "site.com", "script"),
    ];
    for (url, origin, rt) in queries {
        assert_eq!(check(&o1, url, origin, rt), check(&o2, url, origin, rt));
    }
}

#[test]
fn domain_constraint_covers_domain_and_subdomains() {
    let o = oracle(&["ads$domain=good.com"]);
    assert_eq!(check(&o, "http://x.com/ads", "good.com", "script"), Ok(true));
    assert_eq!(check(&o, "http://x.com/ads", "sub.good.com", "script"), Ok(true));
    assert_eq!(check(&o, "http://x.com/ads", "evil.com", "script"), Ok(false));
    assert_eq!(check(&o, "http://x.com/ads", "notgood.com", "script"), Ok(false));
}

#[test]
fn negated_domain_constraint_excludes_origin() {
    let o = oracle(&["ads$domain=~bad.com"]);
    assert_eq!(check(&o, "http://x.com/ads", "good.com", "script"), Ok(true));
    assert_eq!(check(&o, "http://x.com/ads", "bad.com", "script"), Ok(false));
    assert_eq!(check(&o, "http://x.com/ads", "sub.bad.com", "script"), Ok(false));
}

#[test]
fn host_anchor_matches_domain_and_subdomains_only() {
    let o = oracle(&["||ads.example.com^"]);
    assert_eq!(check(&o, "http://ads.example.com/x", "site.com", "script"), Ok(true));
    assert_eq!(check(&o, "http://sub.ads.example.com/x", "site.com", "script"), Ok(true));
    assert_eq!(check(&o, "http://notads.example.com/x", "site.com", "script"), Ok(false));
    assert_eq!(check(&o, "http://ads.example.com", "site.com", "script"), Ok(true));
}

#[test]
fn end_to_end_exception_scenario() {
    let o = oracle(&["||doubleclick.net^", "@@||doubleclick.net/safe^$domain=partner.com"]);
    // The exception pattern does not match /x, so the block stands.
    assert_eq!(check(&o, "http://doubleclick.net/x", "partner.com", "script"), Ok(true));
    assert_eq!(check(&o, "http://doubleclick.net/x", "other.com", "script"), Ok(true));
    // On /safe the exception matches and outranks the blocking rule.
    assert_eq!(check(&o, "http://doubleclick.net/safe", "partner.com", "script"), Ok(false));
    assert_eq!(check(&o, "http://doubleclick.net/safe", "other.com", "script"), Ok(true));
}

#[test]
fn malformed_line_does_not_disable_valid_ones() {
    let o = oracle(&["||ads.example.com^", "broken$domain=", "also-broken$"]);
    assert_eq!(check(&o, "http://ads.example.com/x", "site.com", "script"), Ok(true));
    assert_eq!(check(&o, "http://fine.com/x", "site.com", "script"), Ok(false));
}

#[test]
fn malformed_url_is_an_error_not_a_verdict() {
    let o = oracle(&["||ads.example.com^"]);
    assert_eq!(check(&o, "nonsense", "site.com", "script"), Err(EvalError::InvalidRequest));
    assert_eq!(check(&o, "http//missing.colon", "site.com", "script"),
        Err(EvalError::InvalidRequest));
    assert_eq!(check(&o, "://nohost", "site.com", "script"), Err(EvalError::InvalidRequest));
    assert_eq!(check(&o, "http://", "site.com", "script"), Err(EvalError::InvalidRequest));
}

#[test]
fn host_comparison_is_case_insensitive() {
    let o = oracle(&["||ads.example.com^"]);
    assert_eq!(check(&o, "HTTP://ADS.Example.COM/x", "site.com", "script"), Ok(true));
}

#[test]
fn path_comparison_is_case_sensitive() {
    let o = oracle(&["/banner"]);
    assert_eq!(check(&o, "http://x.com/banner", "site.com", "script"), Ok(true));
    assert_eq!(check(&o, "http://x.com/BANNER", "site.com", "script"), Ok(false));
}

#[test]
fn wildcard_matches_any_run_of_bytes() {
    let o = oracle(&["ad*banner"]);
    assert_eq!(check(&o, "http://x.com/ad123banner", "site.com", "script"), Ok(true));
    assert_eq!(check(&o, "http://x.com/adbanner", "site.com", "script"), Ok(true));
    assert_eq!(check(&o, "http://x.com/banner", "site.com", "script"), Ok(false));
}

#[test]
fn exact_start_and_end_anchors() {
    let o = oracle(&["|http://exact.com/a|"]);
    assert_eq!(check(&o, "http://exact.com/a", "site.com", "script"), Ok(true));
    assert_eq!(check(&o, "http://exact.com/ab", "site.com", "script"), Ok(false));
    assert_eq!(check(&o, "https://exact.com/a", "site.com", "script"), Ok(false));
}

#[test]
fn third_party_option_compares_hosts() {
    let o = oracle(&["ads$third-party"]);
    assert_eq!(check(&o, "http://cdn.com/ads", "example.com", "script"), Ok(true));
    assert_eq!(check(&o, "http://cdn.com/ads", "cdn.com", "script"), Ok(false));
    assert_eq!(check(&o, "http://sub.cdn.com/ads", "cdn.com", "script"), Ok(false));
}

#[test]
fn first_party_option_requires_same_site() {
    let o = oracle(&["ads$~third-party"]);
    assert_eq!(check(&o, "http://cdn.com/ads", "cdn.com", "script"), Ok(true));
    assert_eq!(check(&o, "http://cdn.com/ads", "example.com", "script"), Ok(false));
}

#[test]
fn resource_type_option_restricts_matches() {
    let o = oracle(&["ads$image"]);
    assert_eq!(check(&o, "http://x.com/ads", "site.com", "image"), Ok(true));
    assert_eq!(check(&o, "http://x.com/ads", "site.com", "script"), Ok(false));
}

#[test]
fn short_pattern_without_token_still_matches() {
    let o = oracle(&["ab"]);
    assert_eq!(check(&o, "http://x.com/ab", "site.com", "script"), Ok(true));
    assert_eq!(check(&o, "http://x.com/cd", "site.com", "script"), Ok(false));
}

#[test]
fn pure_wildcard_rule_blocks_everything() {
    let o = oracle(&["*"]);
    assert_eq!(check(&o, "http://anything.com/at-all", "site.com", "script"), Ok(true));
}

#[test]
fn higher_specificity_blocking_rule_overrides_exception() {
    // The blocking rule carries more literal characters and a domain
    // constraint, so it outranks the broader exception.
    let o = oracle(&["||ads.example.com/banner/big^$domain=site.com", "@@ads"]);
    assert_eq!(check(&o, "http://ads.example.com/banner/big", "site.com", "script"), Ok(true));
}

#[test]
fn evaluate_over_a_built_index() {
    let lines = ["||ads.example.com^", "! a comment"];
    let rules = lines.iter().filter_map(|l| parse_line(&bv(l))).collect();
    let idx = build(rules);
    let req = Request::new(bv("http://ads.example.com/z"), bv("site.com"), bv("script"));
    assert!(evaluate(&idx, &req).unwrap().blocked);
    let req = Request::new(bv("http://other.com/z"), bv("site.com"), bv("script"));
    assert!(!evaluate(&idx, &req).unwrap().blocked);
}
