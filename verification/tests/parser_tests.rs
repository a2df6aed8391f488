use adblock_oracle::parser::parse_line;
use adblock_oracle::rule::Party;

fn bv(s: &str) -> Vec<u8> {
    s.as_bytes().to_vec()
}

#[test]
fn blank_and_comment_lines_are_skipped() {
    assert!(parse_line(&bv("")).is_none());
    assert!(parse_line(&bv("   \t")).is_none());
    assert!(parse_line(&bv("! a comment")).is_none());
}

#[test]
fn cosmetic_lines_are_skipped() {
    assert!(parse_line(&bv("example.com##.ad-banner")).is_none());
    assert!(parse_line(&bv("example.com#@#.ad-banner")).is_none());
    assert!(parse_line(&bv("example.com#?#.ad:-abp-has(img)")).is_none());
}

#[test]
fn network_rule_fields_are_parsed() {
    let rule = parse_line(&bv("@@||ads.example.com^$domain=good.com|~bad.com,script,third-party"))
        .expect("a network rule");
    assert!(rule.is_exception);
    assert!(rule.host_anchor);
    assert_eq!(rule.domains.len(), 2);
    assert!(rule.domains[0].included);
    assert_eq!(rule.domains[0].name, bv("good.com"));
    assert!(!rule.domains[1].included);
    assert_eq!(rule.domains[1].name, bv("bad.com"));
    assert_eq!(rule.resource_types.len(), 1);
    assert_eq!(rule.resource_types[0], bv("script"));
    assert!(matches!(rule.party, Party::ThirdOnly));
}

#[test]
fn domain_option_is_lowercased() {
    let rule = parse_line(&bv("ads$domain=GOOD.Com")).expect("a network rule");
    assert_eq!(rule.domains[0].name, bv("good.com"));
}

#[test]
fn unknown_option_keywords_are_ignored() {
    let rule = parse_line(&bv("ads$image,frobnicate")).expect("a network rule");
    assert_eq!(rule.resource_types.len(), 1);
    assert_eq!(rule.resource_types[0], bv("image"));
}

#[test]
fn malformed_lines_are_rejected() {
    assert!(parse_line(&bv("ads$")).is_none());
    assert!(parse_line(&bv("ads$domain=")).is_none());
    assert!(parse_line(&bv("ads$domain=a.com|")).is_none());
    assert!(parse_line(&bv("ads$image,,script")).is_none());
    assert!(parse_line(&bv("||")).is_none());
    assert!(parse_line(&bv("@@")).is_none());
}

#[test]
fn more_constrained_rules_score_higher() {
    let plain = parse_line(&bv("ads.example.com")).unwrap();
    let anchored = parse_line(&bv("||ads.example.com")).unwrap();
    let constrained = parse_line(&bv("||ads.example.com$domain=good.com")).unwrap();
    assert!(anchored.specificity > plain.specificity);
    assert!(constrained.specificity > anchored.specificity);
}
