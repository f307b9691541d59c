use py_license_auditor::dates::Date;
use py_license_auditor::exceptions::{Exception, ExceptionsFile};

fn sample(
    name: &str,
    version: Option<&str>,
    expires: Option<Date>,
    added_by: Option<&str>,
) -> Exception {
    Exception {
        name: name.to_string(),
        version: version.map(|v| v.to_string()),
        reason: "testing".to_string(),
        added_by: added_by.map(|v| v.to_string()),
        added_date: chrono::Utc::now().timestamp(),
        expires,
        permanent: expires.is_none(),
        added_interactively: false,
    }
}

#[test]
fn test_exception_creation() {
    let exception = Exception {
        name: "test-package".to_string(),
        version: Some("1.0.0".to_string()),
        reason: "testing".to_string(),
        added_by: Some("user".to_string()),
        added_date: chrono::Utc::now().timestamp(),
        expires: Some(Date::new(2024, 12, 31)),
        permanent: false,
        added_interactively: true,
    };

    assert_eq!(exception.name, "test-package");
    assert_eq!(exception.version, Some("1.0.0".to_string()));
    assert!(!exception.permanent);
}

#[test]
fn test_exceptions_file_add_exception() {
    let mut exceptions_file = ExceptionsFile::new();
    assert_eq!(exceptions_file.exceptions.len(), 0);

    let exception = sample("test-package", None, None, None);
    exceptions_file.add_exception(exception);
    assert_eq!(exceptions_file.exceptions.len(), 1);
}

#[test]
fn test_is_excepted_exact_match() {
    let mut exceptions_file = ExceptionsFile::new();
    exceptions_file.add_exception(sample("test-package", Some("1.0.0"), None, None));

    assert!(exceptions_file.is_excepted("test-package", Some("1.0.0")));
    assert!(!exceptions_file.is_excepted("test-package", Some("2.0.0")));
    assert!(!exceptions_file.is_excepted("other-package", Some("1.0.0")));
}

#[test]
fn test_is_excepted_wildcard_version() {
    let mut exceptions_file = ExceptionsFile::new();
    exceptions_file.add_exception(sample("test-package", Some("*"), None, None));

    assert!(exceptions_file.is_excepted("test-package", Some("1.0.0")));
    assert!(exceptions_file.is_excepted("test-package", Some("2.0.0")));
}

#[test]
fn test_is_excepted_no_version() {
    let mut exceptions_file = ExceptionsFile::new();
    exceptions_file.add_exception(sample("test-package", None, None, None));

    assert!(exceptions_file.is_excepted("test-package", Some("1.0.0")));
    assert!(exceptions_file.is_excepted("test-package", None));
}

#[test]
fn test_cleanup_expired() {
    let mut exceptions_file = ExceptionsFile::new();

    exceptions_file.add_exception(sample(
        "expired-package",
        None,
        Some(Date::new(2020, 1, 1)),
        None,
    ));
    exceptions_file.add_exception(sample(
        "valid-package",
        None,
        Some(Date::new(2030, 1, 1)),
        None,
    ));

    assert_eq!(exceptions_file.exceptions.len(), 2);

    let removed_count = exceptions_file.cleanup_expired();
    assert_eq!(removed_count, 1);
    assert_eq!(exceptions_file.exceptions.len(), 1);
    assert_eq!(exceptions_file.exceptions[0].name, "valid-package");
}

#[test]
fn test_is_excepted_expiry_boundary() {
    let mut store = ExceptionsFile::new();
    store.add_exception(sample("pkg", None, Some(Date::new(2024, 12, 31)), None));

    assert!(store.is_excepted_on("pkg", Some("1.0.0"), Date::new(2024, 12, 30)));
    assert!(store.is_excepted_on("pkg", Some("1.0.0"), Date::new(2024, 12, 31)));
    assert!(!store.is_excepted_on("pkg", Some("1.0.0"), Date::new(2025, 1, 1)));
    assert!(!store.is_excepted_on("pkg", Some("1.0.0"), Date::new(2025, 12, 31)));
}

#[test]
fn test_cleanup_expired_on_counts() {
    let today = Date::new(2025, 6, 15);
    let mut store = ExceptionsFile::new();
    store.add_exception(sample("a", None, Some(Date::new(2025, 6, 14)), None));
    store.add_exception(sample("b", None, Some(Date::new(2024, 1, 1)), None));
    store.add_exception(sample("c", None, Some(Date::new(2025, 6, 15)), None));
    store.add_exception(sample("d", None, None, None));

    let removed = store.cleanup_expired_on(today);
    assert_eq!(removed, 2);
    assert_eq!(store.exceptions.len(), 2);
    assert_eq!(store.exceptions[0].name, "c");
    assert_eq!(store.exceptions[1].name, "d");
}

#[test]
fn test_wildcard_exception_covers_any_version() {
    let mut store = ExceptionsFile::new();
    store.add_exception(sample("pkg", Some("*"), None, None));

    let today = Date::new(2030, 1, 1);
    assert!(store.is_excepted_on("pkg", Some("1.0.0"), today));
    assert!(store.is_excepted_on("pkg", Some("9.9.9"), today));
}
