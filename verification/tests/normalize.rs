use py_license_auditor::license::{
    extract_license_from_classifier, get_effective_license, is_osi_approved_license,
    normalize_license_name, PackageLicense,
};

#[test]
fn test_normalize_exact_table() {
    assert_eq!(normalize_license_name("MIT"), "MIT");
    assert_eq!(normalize_license_name("MIT License"), "MIT");
    assert_eq!(normalize_license_name("Expat license"), "MIT");
    assert_eq!(normalize_license_name("GPLv3"), "GPL-3.0");
    assert_eq!(normalize_license_name("GPLv2"), "GPL-2.0");
    assert_eq!(normalize_license_name("LGPLv2.1"), "LGPL-2.1");
    assert_eq!(normalize_license_name("Mozilla Public License 2.0"), "MPL-2.0");
    assert_eq!(normalize_license_name("ISC License"), "ISC");
    assert_eq!(normalize_license_name("BSD 3-Clause"), "BSD-3-Clause");
    assert_eq!(normalize_license_name("BSD 2-Clause License"), "BSD-2-Clause");
}

#[test]
fn test_normalize_examples() {
    assert_eq!(normalize_license_name("Apache Software License"), "Apache-2.0");
    assert_eq!(normalize_license_name("Copyright 2020 Foo"), "Unknown");
    assert_eq!(normalize_license_name("Totally Custom EULA"), "Totally Custom EULA");
}

#[test]
fn test_normalize_malformed() {
    assert_eq!(normalize_license_name(""), "Unknown");
    assert_eq!(normalize_license_name("  "), "Unknown");
    assert_eq!(normalize_license_name("ab"), "Unknown");
    assert_eq!(normalize_license_name("=license"), "Unknown");
}

#[test]
fn test_normalize_heuristics() {
    assert_eq!(normalize_license_name("Apache License, Version 2.0"), "Apache-2.0");
    assert_eq!(normalize_license_name("The MIT license of the project"), "MIT");
    assert_eq!(normalize_license_name("BSD License"), "BSD-3-Clause");
    assert_eq!(normalize_license_name("The Unlicense"), "Unlicense");
    assert_eq!(normalize_license_name("GNU GPL version 3"), "GPL-3.0");
}

#[test]
fn test_normalize_trims() {
    assert_eq!(normalize_license_name("  MIT  "), "MIT");
    assert_eq!(normalize_license_name("\tCustom Thing\n"), "Custom Thing");
}

#[test]
fn test_normalize_idempotent_samples() {
    let samples = [
        "MIT",
        "MIT License",
        "Apache Software License",
        "BSD License",
        "The Unlicense",
        "Copyright 2020 Foo",
        "Totally Custom EULA",
        "  spaced out  ",
        "",
        "GPLv3",
        "Mozilla Public License 2.0",
    ];
    for s in samples {
        let once = normalize_license_name(s);
        let twice = normalize_license_name(&once);
        assert_eq!(once, twice);
    }
}

#[test]
fn test_classifier_extraction() {
    assert_eq!(
        extract_license_from_classifier("License :: OSI Approved :: MIT License"),
        Some("MIT License".to_string())
    );
    assert_eq!(
        extract_license_from_classifier("License :: Public Domain"),
        Some("Public Domain".to_string())
    );
    assert_eq!(extract_license_from_classifier("Programming Language :: Python"), None);
    // with more than three segments the third one is still the license name
    assert_eq!(
        extract_license_from_classifier("License :: OSI Approved :: MIT License :: Extra"),
        Some("MIT License".to_string())
    );
}

#[test]
fn test_get_effective_license() {
    let with_field = PackageLicense {
        name: "a".to_string(),
        version: None,
        license: Some("MIT".to_string()),
        license_classifiers: vec!["License :: OSI Approved :: Apache Software License".to_string()],
        metadata_source: "METADATA".to_string(),
    };
    assert_eq!(get_effective_license(&with_field), Some("MIT".to_string()));

    let from_classifier = PackageLicense {
        name: "b".to_string(),
        version: None,
        license: None,
        license_classifiers: vec![
            "Programming Language :: Python".to_string(),
            "License :: OSI Approved :: Apache Software License".to_string(),
        ],
        metadata_source: "METADATA".to_string(),
    };
    assert_eq!(
        get_effective_license(&from_classifier),
        Some("Apache Software License".to_string())
    );

    let nothing = PackageLicense {
        name: "c".to_string(),
        version: None,
        license: None,
        license_classifiers: vec![],
        metadata_source: "METADATA".to_string(),
    };
    assert_eq!(get_effective_license(&nothing), None);
}

#[test]
fn test_is_osi_approved() {
    assert!(is_osi_approved_license("MIT"));
    assert!(is_osi_approved_license("apache software license"));
    assert!(is_osi_approved_license("BSD-3-Clause"));
    assert!(!is_osi_approved_license("Proprietary EULA"));
}
