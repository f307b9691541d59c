use py_license_auditor::license::PackageLicense;
use py_license_auditor::policy::{LicensePolicy, LicenseRule, PackageException, ViolationLevel};

fn pkg(name: &str, license: Option<&str>) -> PackageLicense {
    PackageLicense {
        name: name.to_string(),
        version: Some("1.0.0".to_string()),
        license: license.map(|l| l.to_string()),
        license_classifiers: vec![],
        metadata_source: "METADATA".to_string(),
    }
}

fn example_policy(exceptions: Vec<PackageException>) -> LicensePolicy {
    LicensePolicy {
        name: "Example".to_string(),
        description: None,
        allowed_licenses: LicenseRule { exact: vec!["MIT".to_string()], patterns: vec![] },
        forbidden_licenses: LicenseRule { exact: vec!["GPL-3.0".to_string()], patterns: vec![] },
        review_required: LicenseRule { exact: vec!["Apache-2.0".to_string()], patterns: vec![] },
        exceptions,
    }
}

#[test]
fn test_detect_violations_example() {
    let policy = example_policy(vec![]);
    let packages = vec![
        pkg("A", Some("MIT")),
        pkg("B", Some("GPL-3.0")),
        pkg("C", Some("Apache-2.0")),
        pkg("D", None),
    ];

    let summary = policy.detect_violations(&packages);
    assert_eq!(summary.total, 3);
    assert_eq!(summary.errors, 1);
    assert_eq!(summary.warnings, 2);
    assert_eq!(summary.details.len(), 3);

    let b = &summary.details[0];
    assert_eq!(b.package_name, "B");
    assert_eq!(b.license, Some("GPL-3.0".to_string()));
    assert_eq!(b.violation_level, ViolationLevel::Forbidden);
    assert_eq!(b.matched_rule, Some("exact: GPL-3.0".to_string()));
    assert_eq!(b.message, "License 'GPL-3.0' is forbidden by policy");

    let c = &summary.details[1];
    assert_eq!(c.package_name, "C");
    assert_eq!(c.violation_level, ViolationLevel::ReviewRequired);
    assert_eq!(c.message, "License 'Apache-2.0' requires review");

    let d = &summary.details[2];
    assert_eq!(d.package_name, "D");
    assert_eq!(d.license, None);
    assert_eq!(d.violation_level, ViolationLevel::Unknown);
    assert_eq!(d.matched_rule, None);
    assert_eq!(d.message, "No license information found");
}

#[test]
fn test_detect_violations_skips_excepted_packages() {
    let policy = example_policy(vec![PackageException {
        name: "B".to_string(),
        version: Some("*".to_string()),
        reason: "approved by legal".to_string(),
    }]);
    let packages = vec![pkg("B", Some("GPL-3.0")), pkg("E", Some("GPL-3.0"))];

    let summary = policy.detect_violations(&packages);
    assert_eq!(summary.total, 1);
    assert_eq!(summary.errors, 1);
    assert_eq!(summary.details[0].package_name, "E");
}

#[test]
fn test_detect_violations_normalizes_licenses() {
    let policy = example_policy(vec![]);
    let packages = vec![pkg("F", Some("GNU GPL version 3")), pkg("G", Some("MIT License"))];

    let summary = policy.detect_violations(&packages);
    assert_eq!(summary.total, 1);
    assert_eq!(summary.details[0].package_name, "F");
    assert_eq!(summary.details[0].license, Some("GPL-3.0".to_string()));
}

#[test]
fn test_blank_license_counts_as_missing() {
    let policy = example_policy(vec![]);
    let packages = vec![pkg("H", Some("   "))];

    let summary = policy.detect_violations(&packages);
    assert_eq!(summary.total, 1);
    assert_eq!(summary.details[0].license, None);
    assert_eq!(summary.details[0].message, "No license information found");
}

#[test]
fn test_unknown_license_message() {
    let policy = example_policy(vec![]);
    let packages = vec![pkg("I", Some("Custom EULA"))];

    let summary = policy.detect_violations(&packages);
    assert_eq!(summary.total, 1);
    assert_eq!(summary.errors, 0);
    assert_eq!(summary.warnings, 1);
    assert_eq!(summary.details[0].violation_level, ViolationLevel::Unknown);
    assert_eq!(summary.details[0].message, "License 'Custom EULA' is not in allowed list");
}
