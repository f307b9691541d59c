use py_license_auditor::extractor::{
    parse_metadata_content, parse_name_version_from_dist_info, parse_name_version_from_egg_info,
};

#[test]
fn test_parse_name_version_from_dist_info() {
    assert_eq!(
        parse_name_version_from_dist_info("requests-2.31.0.dist-info"),
        Some(("requests".to_string(), Some("2.31.0".to_string())))
    );
    assert_eq!(
        parse_name_version_from_dist_info("typing_extensions-4.12.2.dist-info"),
        Some(("typing_extensions".to_string(), Some("4.12.2".to_string())))
    );
    assert_eq!(
        parse_name_version_from_dist_info("nodash.dist-info"),
        Some(("nodash".to_string(), None))
    );
    assert_eq!(parse_name_version_from_dist_info("requests-2.31.0.egg-info"), None);
}

#[test]
fn test_parse_name_version_from_egg_info() {
    assert_eq!(
        parse_name_version_from_egg_info("click-8.1.7.egg-info"),
        Some(("click".to_string(), Some("8.1.7".to_string())))
    );
    assert_eq!(parse_name_version_from_egg_info("click-8.1.7.dist-info"), None);
}

#[test]
fn test_parse_metadata_content() {
    let content = "Metadata-Version: 2.1\nName: demo\nLicense: MIT\nClassifier: Programming Language :: Python\nClassifier: License :: OSI Approved :: MIT License\n";
    let (license, classifiers) = parse_metadata_content(content);
    assert_eq!(license, Some("MIT".to_string()));
    assert_eq!(classifiers, vec!["License :: OSI Approved :: MIT License".to_string()]);
}

#[test]
fn test_parse_metadata_content_skips_unknown() {
    let content = "License: UNKNOWN\nClassifier: Topic :: Utilities\n";
    let (license, classifiers) = parse_metadata_content(content);
    assert_eq!(license, None);
    assert!(classifiers.is_empty());
}

#[test]
fn test_parse_metadata_content_last_license_wins() {
    let content = "License: Apache-2.0\r\nLicense: MIT\r\n";
    let (license, classifiers) = parse_metadata_content(content);
    assert_eq!(license, Some("MIT".to_string()));
    assert!(classifiers.is_empty());
}
