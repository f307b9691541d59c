use py_license_auditor::policy::{LicensePolicy, LicenseRule, PackageException, ViolationLevel};

fn empty_rule() -> LicenseRule {
    LicenseRule { exact: vec![], patterns: vec![] }
}

fn policy_with(
    allowed: LicenseRule,
    forbidden: LicenseRule,
    review: LicenseRule,
    exceptions: Vec<PackageException>,
) -> LicensePolicy {
    LicensePolicy {
        name: "Test Policy".to_string(),
        description: None,
        allowed_licenses: allowed,
        forbidden_licenses: forbidden,
        review_required: review,
        exceptions,
    }
}

#[test]
fn test_license_rule_exact_match() {
    let rule = LicenseRule {
        exact: vec!["MIT".to_string(), "Apache-2.0".to_string()],
        patterns: vec![],
    };

    assert!(rule.matches("MIT"));
    assert!(rule.matches("Apache-2.0"));
    assert!(!rule.matches("GPL-3.0"));
}

#[test]
fn test_license_rule_pattern_match() {
    let rule = LicenseRule {
        exact: vec![],
        patterns: vec!["GPL-*".to_string(), "BSD-*".to_string()],
    };

    assert!(rule.matches("GPL-3.0"));
    assert!(rule.matches("BSD-3-Clause"));
    assert!(!rule.matches("MIT"));
}

#[test]
fn test_license_policy_check() {
    let policy = LicensePolicy {
        name: "Test Policy".to_string(),
        description: None,
        allowed_licenses: LicenseRule {
            exact: vec!["MIT".to_string()],
            patterns: vec![],
        },
        forbidden_licenses: LicenseRule {
            exact: vec!["GPL-3.0".to_string()],
            patterns: vec![],
        },
        review_required: LicenseRule {
            exact: vec!["Apache-2.0".to_string()],
            patterns: vec![],
        },
        exceptions: vec![],
    };

    assert_eq!(policy.check_license("MIT"), ViolationLevel::Allowed);
    assert_eq!(policy.check_license("GPL-3.0"), ViolationLevel::Forbidden);
    assert_eq!(policy.check_license("Apache-2.0"), ViolationLevel::ReviewRequired);
    assert_eq!(policy.check_license("Unknown"), ViolationLevel::Unknown);
}

#[test]
fn test_forbidden_wins_over_allowed() {
    let policy = policy_with(
        LicenseRule { exact: vec!["GPL-3.0".to_string()], patterns: vec![] },
        LicenseRule { exact: vec!["GPL-3.0".to_string()], patterns: vec![] },
        empty_rule(),
        vec![],
    );
    assert_eq!(policy.check_license("GPL-3.0"), ViolationLevel::Forbidden);
}

#[test]
fn test_pattern_anchors_on_literal_prefix() {
    let rule = LicenseRule { exact: vec![], patterns: vec!["GPL-*".to_string()] };
    assert!(rule.matches("GPL-2.0"));
    assert!(!rule.matches("LGPL-2.0"));
}

#[test]
fn test_invalid_pattern_never_matches() {
    let rule = LicenseRule { exact: vec![], patterns: vec!["[".to_string()] };
    assert!(!rule.matches("anything"));
    assert_eq!(rule.find_match("anything"), None);
}

#[test]
fn test_find_match_descriptors() {
    let rule = LicenseRule {
        exact: vec!["MIT".to_string()],
        patterns: vec!["GPL-*".to_string()],
    };
    assert_eq!(rule.find_match("MIT"), Some("exact: MIT".to_string()));
    assert_eq!(rule.find_match("GPL-3.0"), Some("pattern: GPL-*".to_string()));
    assert_eq!(rule.find_match("Apache-2.0"), None);
}

#[test]
fn test_embedded_exception_matching() {
    let exceptions = vec![
        PackageException {
            name: "pinned".to_string(),
            version: Some("1.0.0".to_string()),
            reason: "approved".to_string(),
        },
        PackageException {
            name: "anyver".to_string(),
            version: Some("*".to_string()),
            reason: "approved".to_string(),
        },
        PackageException {
            name: "nover".to_string(),
            version: None,
            reason: "approved".to_string(),
        },
    ];
    let policy = policy_with(empty_rule(), empty_rule(), empty_rule(), exceptions);

    assert!(policy.is_exception("pinned", Some("1.0.0")).is_some());
    assert!(policy.is_exception("pinned", Some("2.0.0")).is_none());
    assert!(policy.is_exception("anyver", Some("7.7.7")).is_some());
    assert!(policy.is_exception("nover", Some("1.2.3")).is_some());
    assert!(policy.is_exception("nover", None).is_some());
    assert!(policy.is_exception("other", Some("1.0.0")).is_none());
    let hit = policy.is_exception("pinned", Some("1.0.0")).unwrap();
    assert_eq!(hit.reason, "approved");
}
