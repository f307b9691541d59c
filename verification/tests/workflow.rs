use py_license_auditor::checker::Violation;
use py_license_auditor::dates::Date;
use py_license_auditor::exceptions::{Exception, ExceptionsFile};
use py_license_auditor::interactive::{
    answer_is_yes, build_exception, expand_group_reason, expand_reason, filter_unexcepted,
    group_violations_by_license, resolve_expiry, GroupDecision, ResolutionState,
};
use py_license_auditor::policy::ViolationLevel;

fn violation(name: &str, license: Option<&str>, level: ViolationLevel) -> Violation {
    Violation {
        package_name: name.to_string(),
        package_version: Some("1.0.0".to_string()),
        license: license.map(|l| l.to_string()),
        violation_level: level,
        matched_rule: None,
        message: "msg".to_string(),
    }
}

#[test]
fn test_group_violations_by_license() {
    let violations = vec![
        violation("a", Some("GPL-3.0"), ViolationLevel::Forbidden),
        violation("b", Some("Apache-2.0"), ViolationLevel::ReviewRequired),
        violation("c", Some("GPL-3.0"), ViolationLevel::Forbidden),
        violation("d", None, ViolationLevel::Unknown),
    ];

    let groups = group_violations_by_license(violations);
    assert_eq!(groups.len(), 3);

    assert_eq!(groups[0].normalized_license, "Apache-2.0");
    assert_eq!(groups[0].violation_type, "Review required");
    assert_eq!(groups[0].packages.len(), 1);

    assert_eq!(groups[1].normalized_license, "GPL-3.0");
    assert_eq!(groups[1].violation_type, "Forbidden license");
    assert_eq!(groups[1].packages.len(), 2);
    assert_eq!(groups[1].packages[0].package_name, "a");
    assert_eq!(groups[1].packages[1].package_name, "c");

    assert_eq!(groups[2].normalized_license, "Unknown");
    assert_eq!(groups[2].license, "Unknown");
    assert_eq!(groups[2].violation_type, "Unknown license");
    assert_eq!(groups[2].packages[0].package_name, "d");
}

#[test]
fn test_resolution_accept_skip_quit() {
    let violations = vec![
        violation("a", Some("Apache-2.0"), ViolationLevel::ReviewRequired),
        violation("b", Some("GPL-3.0"), ViolationLevel::Forbidden),
        violation("c", Some("GPL-3.0"), ViolationLevel::Forbidden),
        violation("d", Some("MPL-2.0"), ViolationLevel::ReviewRequired),
    ];
    let groups = group_violations_by_license(violations);
    assert_eq!(groups.len(), 3);

    let mut state = ResolutionState::start(groups);
    assert!(!state.done());

    // accept the Apache-2.0 group
    state.step(
        GroupDecision::Accept {
            reason: "migration in progress".to_string(),
            expires: Some(Date::new(2030, 1, 1)),
        },
        1700000000,
        Some("op".to_string()),
    );
    assert_eq!(state.new_exceptions.len(), 1);
    let e = &state.new_exceptions[0];
    assert_eq!(e.name, "a");
    assert_eq!(e.version, Some("1.0.0".to_string()));
    assert_eq!(e.reason, "migration in progress");
    assert_eq!(e.expires, Some(Date::new(2030, 1, 1)));
    assert!(!e.permanent);
    assert!(e.added_interactively);
    assert_eq!(e.added_by, Some("op".to_string()));
    assert_eq!(e.added_date, 1700000000);

    // skip the GPL-3.0 group
    state.step(GroupDecision::Skip, 1700000000, None);
    assert_eq!(state.remaining.len(), 2);
    assert_eq!(state.remaining[0].package_name, "b");
    assert_eq!(state.remaining[1].package_name, "c");
    assert!(!state.done());

    // quit with the MPL-2.0 group still pending
    state.step(GroupDecision::Quit, 1700000000, None);
    assert!(state.done());
    assert!(state.quit);
    assert_eq!(state.remaining.len(), 3);
    assert_eq!(state.remaining[2].package_name, "d");
    assert_eq!(state.new_exceptions.len(), 1);
}

#[test]
fn test_answer_is_yes() {
    assert!(answer_is_yes("y"));
    assert!(answer_is_yes("Yes"));
    assert!(answer_is_yes("  yep  "));
    assert!(!answer_is_yes("n"));
    assert!(!answer_is_yes(""));
    assert!(!answer_is_yes("  "));
}

#[test]
fn test_expand_reason() {
    assert_eq!(expand_reason(""), "temporary exception");
    assert_eq!(expand_reason("research"), "research prototype");
    assert_eq!(expand_reason("migration"), "migration in progress");
    assert_eq!(expand_reason("legacy"), "legacy compatibility");
    assert_eq!(expand_reason("custom words"), "custom words");
}

#[test]
fn test_expand_group_reason() {
    assert_eq!(
        expand_group_reason("", "GPL-3.0"),
        "temporary exception for GPL-3.0 license"
    );
    assert_eq!(
        expand_group_reason("research", "GPL-3.0"),
        "research prototype - GPL-3.0 license"
    );
    assert_eq!(expand_group_reason("whatever", "GPL-3.0"), "whatever");
}

#[test]
fn test_resolve_expiry() {
    let today = Date::new(2025, 1, 1);

    let (d, fallback) = resolve_expiry("", today);
    assert_eq!(d, Some(Date::new(2025, 4, 1)));
    assert!(!fallback);

    let (d, fallback) = resolve_expiry("never", today);
    assert_eq!(d, None);
    assert!(!fallback);

    let (d, fallback) = resolve_expiry("PERMANENT", today);
    assert_eq!(d, None);
    assert!(!fallback);

    let (d, fallback) = resolve_expiry("2026-06-30", today);
    assert_eq!(d, Some(Date::new(2026, 6, 30)));
    assert!(!fallback);

    let (d, fallback) = resolve_expiry("not a date", today);
    assert_eq!(d, Some(Date::new(2025, 4, 1)));
    assert!(fallback);
}

#[test]
fn test_build_exception() {
    let e = build_exception(
        "pkg",
        Some("2.0.0"),
        "temporary exception".to_string(),
        None,
        1700000000,
        None,
    );
    assert_eq!(e.name, "pkg");
    assert_eq!(e.version, Some("2.0.0".to_string()));
    assert!(e.permanent);
    assert_eq!(e.expires, None);
    assert!(e.added_interactively);
}

#[test]
fn test_filter_unexcepted() {
    let today = Date::new(2025, 1, 1);
    let mut store = ExceptionsFile::new();
    store.add_exception(Exception {
        name: "a".to_string(),
        version: None,
        reason: "approved".to_string(),
        added_by: None,
        added_date: 0,
        expires: None,
        permanent: true,
        added_interactively: false,
    });
    store.add_exception(Exception {
        name: "b".to_string(),
        version: None,
        reason: "expired".to_string(),
        added_by: None,
        added_date: 0,
        expires: Some(Date::new(2020, 1, 1)),
        permanent: false,
        added_interactively: false,
    });

    let violations = vec![
        violation("a", Some("GPL-3.0"), ViolationLevel::Forbidden),
        violation("b", Some("GPL-3.0"), ViolationLevel::Forbidden),
        violation("c", Some("GPL-3.0"), ViolationLevel::Forbidden),
    ];
    let rest = filter_unexcepted(&store, violations, today);
    assert_eq!(rest.len(), 2);
    assert_eq!(rest[0].package_name, "b");
    assert_eq!(rest[1].package_name, "c");
}
