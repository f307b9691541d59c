use py_license_auditor::config::Config;
use py_license_auditor::init::{get_preset_config, InitPreset};
use py_license_auditor::uv_lock::{UvLockFile, UvLockParser, UvPackage};

fn uv_pkg(name: &str, version: &str) -> UvPackage {
    UvPackage {
        name: name.to_string(),
        version: version.to_string(),
        source: None,
        dependencies: None,
        sdist: None,
        wheels: None,
    }
}

#[test]
fn test_extract_packages() {
    let lock_file = UvLockFile {
        version: 1,
        revision: None,
        requires_python: None,
        resolution_markers: None,
        packages: vec![uv_pkg("requests", "2.31.0"), uv_pkg("click", "8.1.7")],
    };

    let packages = UvLockParser::extract_packages(&lock_file);
    assert_eq!(packages.len(), 2);
    assert_eq!(packages[0], ("requests".to_string(), "2.31.0".to_string()));
    assert_eq!(packages[1], ("click".to_string(), "8.1.7".to_string()));
}

#[test]
fn test_extract_packages_skips_blank_entries() {
    let lock_file = UvLockFile {
        version: 1,
        revision: None,
        requires_python: None,
        resolution_markers: None,
        packages: vec![uv_pkg("", "1.0.0"), uv_pkg("ok", "  "), uv_pkg("kept", "2.0.0")],
    };

    let packages = UvLockParser::extract_packages(&lock_file);
    assert_eq!(packages, vec![("kept".to_string(), "2.0.0".to_string())]);
}

#[test]
fn test_config_defaults() {
    let config = Config::default();
    assert_eq!(config.format, Some("table".to_string()));
    assert_eq!(config.include_unknown, Some(false));
    assert_eq!(config.check_violations, Some(false));
    assert_eq!(config.fail_on_violations, Some(false));
    assert!(config.policy.is_none());
}

#[test]
fn test_config_consistency() {
    let red_config = get_preset_config(InitPreset::Red);
    let green_config = get_preset_config(InitPreset::Green);
    let yellow_config = get_preset_config(InitPreset::Yellow);

    assert!(toml::from_str::<toml::Value>(red_config).is_ok());
    assert!(toml::from_str::<toml::Value>(green_config).is_ok());
    assert!(toml::from_str::<toml::Value>(yellow_config).is_ok());
}

#[test]
fn test_presets_name_their_policies() {
    assert!(get_preset_config(InitPreset::Green).contains("Green License Policy"));
    assert!(get_preset_config(InitPreset::Yellow).contains("Yellow License Policy"));
    assert!(get_preset_config(InitPreset::Red).contains("Red License Policy"));
    assert!(get_preset_config(InitPreset::Green).contains("tool.py-license-auditor"));
}
