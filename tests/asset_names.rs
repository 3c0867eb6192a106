use clyde::asset_names::{is_supported_build_name, is_supported_name};

#[test]
fn add_build_test_is_supported_name() {
    assert!(is_supported_build_name("foo.tar.gz"));
    assert!(is_supported_build_name("foo.zip"));
    assert!(is_supported_build_name("foo.exe"));
    assert!(is_supported_build_name("foo-x86_64-linux"));

    assert!(!is_supported_build_name("foo.deb"));
    assert!(!is_supported_build_name("foo.rpm"));
    assert!(!is_supported_build_name("foo.msi"));
    assert!(!is_supported_build_name("foo.gz"));
    assert!(!is_supported_build_name("foo.exe.xz"));
    assert!(!is_supported_build_name("foo.bz2"));
}

#[test]
fn url_selector_test_is_supported_name() {
    assert!(is_supported_name("foo.tar.gz"));
    assert!(is_supported_name("foo.zip"));
    assert!(is_supported_name("foo.exe"));
    assert!(is_supported_name("foo-x86_64-linux"));
    assert!(is_supported_name("foo.gz"));
    assert!(is_supported_name("foo.exe.xz"));
    assert!(is_supported_name("foo.bz2"));

    assert!(!is_supported_name("foo.deb"));
    assert!(!is_supported_name("foo.rpm"));
    assert!(!is_supported_name("foo.msi"));
}

#[test]
fn supported_name_rejects_checksums_and_scripts() {
    assert!(!is_supported_name("foo.sha256"));
    assert!(!is_supported_name("install.sh"));
    assert!(is_supported_name("foo.tar.xz"));
}
