use py_license_auditor::license::PackageLicense;
use py_license_auditor::report::{create_report, get_license_info, truncate};

fn pkg(name: &str, license: Option<&str>, classifiers: Vec<&str>) -> PackageLicense {
    PackageLicense {
        name: name.to_string(),
        version: Some("1.0.0".to_string()),
        license: license.map(|l| l.to_string()),
        license_classifiers: classifiers.into_iter().map(|c| c.to_string()).collect(),
        metadata_source: "METADATA".to_string(),
    }
}

#[test]
fn test_get_license_info_prefers_classifiers() {
    let p = pkg(
        "a",
        Some("Some custom text"),
        vec!["License :: OSI Approved :: MIT License"],
    );
    let info = get_license_info(&p);
    assert_eq!(info, vec![("MIT".to_string(), true)]);
}

#[test]
fn test_get_license_info_field_fallback() {
    let p = pkg("a", Some("Apache Software License"), vec![]);
    let info = get_license_info(&p);
    assert_eq!(info, vec![("Apache-2.0".to_string(), true)]);

    let q = pkg("b", None, vec![]);
    assert_eq!(get_license_info(&q), vec![("Unknown".to_string(), false)]);
}

#[test]
fn test_create_report_totals_and_counts() {
    let packages = vec![
        pkg("a", Some("MIT"), vec![]),
        pkg("b", Some("MIT License"), vec![]),
        pkg("c", Some("GPL-3.0"), vec![]),
        pkg("d", None, vec![]),
    ];
    let report = create_report(packages);

    assert_eq!(report.summary.total_packages, 4);
    assert_eq!(report.summary.with_license, 3);
    assert_eq!(report.summary.without_license, 1);
    assert!(report.violations.is_none());
    assert_eq!(report.packages.len(), 4);

    // MIT appears twice and GPL-3.0 once among the OSI-approved names
    assert_eq!(
        report.summary.license_types.osi_approved,
        vec![("MIT".to_string(), 2), ("GPL-3.0".to_string(), 1)]
    );
    // the package without license information counts as one unknown entry
    assert_eq!(
        report.summary.license_types.non_osi,
        vec![("Unknown".to_string(), 1)]
    );
}

#[test]
fn test_truncate() {
    assert_eq!(truncate("short", 15), "short");
    assert_eq!(truncate("exactly", 7), "exactly");
    assert_eq!(truncate("much too long name", 7), "much t\u{2026}");
}
