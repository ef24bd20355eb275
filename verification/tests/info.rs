use iggy::info::{SemanticVersion, SystemInfo};

#[test]
fn should_load_the_expected_version_from_package_definition() {
    assert_eq!(iggy::info::version(), "0.1.0");
}

#[test]
fn version_comparison_orders_by_major_then_minor_then_patch() {
    let a = SemanticVersion::new(1, 2, 3);
    let b = SemanticVersion::new(1, 2, 3);
    assert!(a.is_equal_to(&b));
    assert!(!a.is_greater_than(&b));
    assert!(SemanticVersion::new(2, 0, 0).is_greater_than(&a));
    assert!(SemanticVersion::new(1, 3, 0).is_greater_than(&a));
    assert!(SemanticVersion::new(1, 2, 4).is_greater_than(&a));
    assert!(!SemanticVersion::new(1, 2, 2).is_greater_than(&a));
}

#[test]
fn update_version_replaces_the_string_and_rolls_the_hash() {
    let mut info = SystemInfo::default();
    info.update_version("0.1.0");
    assert_eq!(info.version.version, "0.1.0");
    let first_hash = info.version.hash.clone();
    info.update_version("0.2.0");
    assert_eq!(info.version.version, "0.2.0");
    assert_ne!(info.version.hash, first_hash);
}
