use bhai_dns::analysis::DomainAnalyzer;
use bhai_dns::classify::{classify, Verdict, WeightTable};
use bhai_dns::entropy::entropy_milli;
use bhai_dns::features::{
    analyze_tld_suspicion, check_brand_impersonation, default_feature_config, extract_features,
    has_suspicious_pattern,
};
use bhai_dns::name::Name;

fn name(s: &str) -> Name {
    Name::normalize(&s.as_bytes().to_vec()).unwrap()
}

#[test]
fn entropy_of_uniform_string_is_zero() {
    assert_eq!(entropy_milli(&b"aaaa".to_vec()), 0);
}

#[test]
fn entropy_of_two_distinct_bytes_is_one_bit() {
    assert_eq!(entropy_milli(&b"ab".to_vec()), 1000);
}

#[test]
fn entropy_of_ordinary_name_is_in_band() {
    let e = entropy_milli(&b"example.com".to_vec());
    assert!(e >= 2500 && e <= 4500);
}

#[test]
fn verification_infix_fires_the_pattern_flag() {
    let (hit, flags) = has_suspicious_pattern(&name("paypa1-verification-login.tk"));
    assert!(hit);
    assert!(!flags.is_empty());
}

#[test]
fn plain_name_has_no_pattern_flag() {
    let (hit, flags) = has_suspicious_pattern(&name("example.com"));
    assert!(!hit);
    assert!(flags.is_empty());
}

#[test]
fn digit_run_before_dot_com_fires_the_pattern_flag() {
    let (hit, _) = has_suspicious_pattern(&name("promo12345.com"));
    assert!(hit);
    let (quiet, _) = has_suspicious_pattern(&name("promo1234.com"));
    assert!(!quiet);
}

#[test]
fn brand_token_off_dot_com_is_impersonation() {
    let (hit, _) = check_brand_impersonation(&name("paypal-login.net"));
    assert!(hit);
    let (ok_brand, _) = check_brand_impersonation(&name("paypal.com"));
    assert!(!ok_brand);
    let (no_brand, _) = check_brand_impersonation(&name("example.net"));
    assert!(!no_brand);
}

#[test]
fn high_abuse_tld_is_flagged() {
    let (hit, _) = analyze_tld_suspicion(&name("evil.tk"));
    assert!(hit);
    let (quiet, _) = analyze_tld_suspicion(&name("example.com"));
    assert!(!quiet);
}

#[test]
fn heuristic_block_scores_patterns_plus_tld() {
    // the verification infix and the .tk suffix together score 1.4,
    // above the 0.7 block threshold
    let cfg = default_feature_config();
    let w = WeightTable::defaults();
    let f = extract_features(&name("paypa1-verification-login.tk"), &cfg);
    assert!(f.suspicious_patterns);
    assert!(f.suspicious_tld);
    assert!(!f.brand_impersonation);
    let d = classify(&f, false, &w);
    assert!(matches!(d.verdict, Verdict::Block));
    assert_eq!(d.confidence_milli, 950);
    let reasons: Vec<String> = d.reasons;
    assert!(reasons.contains(&"Contains suspicious patterns".to_string()));
    assert!(reasons.contains(&"Uses suspicious top-level domain".to_string()));
    assert!(!reasons.contains(&"Potential brand impersonation".to_string()));
}

#[test]
fn known_malicious_blocks_with_fixed_reason() {
    let cfg = default_feature_config();
    let w = WeightTable::defaults();
    let f = extract_features(&name("evil.example"), &cfg);
    let d = classify(&f, true, &w);
    assert!(matches!(d.verdict, Verdict::Block));
    assert_eq!(d.confidence_milli, 950);
    assert_eq!(d.reasons.len(), 1);
    assert_eq!(d.reasons[0], "known_malicious".to_string());
}

#[test]
fn ordinary_name_is_allowed() {
    let cfg = default_feature_config();
    let w = WeightTable::defaults();
    let f = extract_features(&name("example.com"), &cfg);
    let d = classify(&f, false, &w);
    assert!(matches!(d.verdict, Verdict::Allow));
    assert!(d.reasons.is_empty());
}

#[test]
fn classifier_is_deterministic_on_same_inputs() {
    let cfg = default_feature_config();
    let w = WeightTable::defaults();
    let f1 = extract_features(&name("paypa1-verification-login.tk"), &cfg);
    let f2 = extract_features(&name("paypa1-verification-login.tk"), &cfg);
    let d1 = classify(&f1, false, &w);
    let d2 = classify(&f2, false, &w);
    assert!(matches!(d1.verdict, Verdict::Block) == matches!(d2.verdict, Verdict::Block));
    assert_eq!(d1.confidence_milli, d2.confidence_milli);
    assert_eq!(d1.reasons, d2.reasons);
}

#[test]
fn tld_alone_marks_a_name_suspect_not_blocked() {
    // only the .tk suffix: score 0.6, between the 0.4 and 0.7 thresholds
    let cfg = default_feature_config();
    let w = WeightTable::defaults();
    let f = extract_features(&name("quiet.tk"), &cfg);
    assert!(f.suspicious_tld && !f.suspicious_patterns && !f.brand_impersonation);
    if f.entropy_milli >= 2500 && f.entropy_milli <= 4500 {
        let d = classify(&f, false, &w);
        assert!(matches!(d.verdict, Verdict::Suspect));
    }
}

#[test]
fn analyzer_scores_keywords_and_registry() {
    let a = DomainAnalyzer::new();
    let r = a.analyze(&name("phishing-site.tk"));
    assert!(r.features.has_suspicious_keywords);
    assert_eq!(r.features.tld, b"tk".to_vec());
    assert_eq!(r.risk_score_centi, 100);
    assert_eq!(r.category, "High Risk".to_string());
    assert!(r.recommendations.contains(&"Consider blocking this domain".to_string()));
}

#[test]
fn analyzer_rates_plain_name_low_risk() {
    let a = DomainAnalyzer::new();
    let r = a.analyze(&name("example.com"));
    assert!(!r.features.has_suspicious_keywords);
    assert_eq!(r.features.tld, b"com".to_vec());
    assert_eq!(r.category, "Low Risk".to_string());
    assert_eq!(r.recommendations, vec!["Domain appears safe".to_string()]);
}
