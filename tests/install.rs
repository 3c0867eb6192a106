use clyde::db::Database;
use clyde::error::ErrorKind;
use clyde::unpacker::plan_extraction;
use clyde::install::{check_installed, deletes_cached_asset_on_failure, parse_package_name_arg, plan_install, InstallStep};
use clyde::placement::{plan_entry, plan_placements};
use clyde::vars::VarsMap;
use clyde::version::{Version, VersionReq};

fn pairs(items: &[(&str, &str)]) -> Vec<(String, String)> {
    items.iter().map(|(a, b)| (a.to_string(), b.to_string())).collect()
}

fn tree(items: &[&str]) -> Vec<String> {
    items.iter().map(|s| s.to_string()).collect()
}

fn destinations(plan: &[(String, String)]) -> Vec<String> {
    let mut d: Vec<String> = plan.iter().map(|(_, d)| d.clone()).collect();
    d.sort();
    d
}

#[test]
fn test_parse_package_name_arg() {
    let r = parse_package_name_arg("foo").unwrap();
    assert_eq!(r.name, "foo");
    assert_eq!(r.version, VersionReq::star());
    let r = parse_package_name_arg("foo@1.2").unwrap();
    assert_eq!(r.name, "foo");
    assert_eq!(r.version, VersionReq::parse("1.2").unwrap());
    let r = parse_package_name_arg("foo@1.*").unwrap();
    assert_eq!(r.name, "foo");
    assert_eq!(r.version, VersionReq::parse("1.*").unwrap());
}

#[test]
fn parse_package_name_arg_rejects_bad_requirements() {
    assert_eq!(parse_package_name_arg("foo@not a version").err(), Some(ErrorKind::NoMatchingVersion));
    let r = parse_package_name_arg("foo@=1.2.0").unwrap();
    assert_eq!(r.version.as_text(), "=1.2.0");
}

#[test]
fn install_files_should_copy_files() {
    // An unpacked package with bin/foo-1.2, bin/food and README.md
    let files = pairs(&[
        ("README.md", "share/doc/foo/"),
        ("bin/foo-1.2", "bin/foo"),
        ("bin/food", ""),
    ]);
    let t = tree(&["bin/foo-1.2", "bin/food", "README.md"]);
    let plan = plan_placements(&files, &VarsMap::new(), &t).unwrap();
    assert_eq!(
        destinations(&plan),
        vec!["bin/foo", "bin/food", "share/doc/foo/README.md"]
    );
    assert_eq!(plan[0], ("README.md".to_string(), "share/doc/foo/README.md".to_string()));
}

#[test]
fn install_files_should_expand_vars() {
    let files = pairs(&[("README.md", "${doc_dir}"), ("bin/foo${exe_ext}", "bin/")]);
    let vars: VarsMap = vec![
        ("exe_ext".to_string(), ".exe".to_string()),
        ("doc_dir".to_string(), "share/doc/foo/".to_string()),
    ];
    let t = tree(&["bin/foo.exe", "README.md"]);
    let plan = plan_placements(&files, &vars, &t).unwrap();
    assert_eq!(destinations(&plan), vec!["bin/foo.exe", "share/doc/foo/README.md"]);
}

#[test]
fn install_files_should_merge_dirs() {
    // The prefix already holds share/man/f1; the package holds share/man/f2 and installs
    // `share` in `share`: only share/man/f2 is placed, and so owned.
    let files = pairs(&[("share", "share")]);
    let t = tree(&["share/man/f2"]);
    let plan = plan_placements(&files, &VarsMap::new(), &t).unwrap();
    assert_eq!(plan, pairs(&[("share/man/f2", "share/man/f2")]));
}

#[test]
fn placement_fails_on_unknown_variables_and_missing_sources() {
    let t = tree(&["bin/foo"]);
    assert_eq!(
        plan_entry("bin/foo${nope}", "bin/", &VarsMap::new(), &t),
        Err(ErrorKind::UnknownVariable)
    );
    assert_eq!(
        plan_entry("bin/bar", "bin/", &VarsMap::new(), &t),
        Err(ErrorKind::IoError)
    );
    assert_eq!(
        plan_entry("bin/foo", "../outside", &VarsMap::new(), &t),
        Err(ErrorKind::DescriptorParse)
    );
}

#[test]
fn fresh_install_places_bin_hello() {
    // strip 1 of hello/bin/hello leaves bin/hello; `bin/hello: bin/` places it at bin/hello
    let t = tree(&["bin/hello"]);
    let plan = plan_placements(&pairs(&[("bin/hello", "bin/")]), &VarsMap::new(), &t).unwrap();
    assert_eq!(plan, pairs(&[("bin/hello", "bin/hello")]));
}

#[test]
fn already_installed_needs_reinstall() {
    let v = Version::new(1, 2, 0);
    assert_eq!(check_installed(&Some(Version::new(1, 2, 0)), &v, false), Err(ErrorKind::AlreadyInstalled));
    assert_eq!(check_installed(&Some(Version::new(1, 2, 0)), &v, true), Ok(true));
    assert_eq!(check_installed(&Some(Version::new(1, 1, 0)), &v, false), Ok(true));
    assert_eq!(check_installed(&None, &v, false), Ok(false));
}

#[test]
fn fresh_install_of_a_tar_gz_asset() {
    // The archive holds hello/bin/hello; the install spec strips 1 and maps bin/hello to bin/
    let entries = vec![("hello/".to_string(), true), ("hello/bin/hello".to_string(), false)];
    let extracted = plan_extraction(&entries, 1).unwrap();
    assert_eq!(extracted, vec![(1, "bin/hello".to_string())]);
    let t: Vec<String> = extracted.iter().map(|(_, p)| p.clone()).collect();
    let plan = plan_placements(&pairs(&[("bin/hello", "bin/")]), &VarsMap::new(), &t).unwrap();
    let placed: Vec<String> = plan.iter().map(|(_, d)| d.clone()).collect();
    assert_eq!(placed, vec!["bin/hello".to_string()]);
    let mut db = Database::new_in_memory();
    db.add_package("hello", &Version::new(1, 2, 0), &VersionReq::star(), &placed).unwrap();
    let infos = db.get_installed_packages();
    assert_eq!(infos[0].name, "hello");
    assert_eq!(infos[0].installed_version, Version::new(1, 2, 0));
    assert_eq!(infos[0].requested_version.as_text(), "*");
    assert_eq!(db.get_package_files("hello"), vec!["bin/hello".to_string()]);
}

#[test]
fn reinstall_over_the_same_version_keeps_the_rows() {
    let mut db = Database::new_in_memory();
    let files = vec!["bin/hello".to_string()];
    let v = Version::new(1, 2, 0);
    let req = VersionReq::parse("1.2.0").unwrap();
    db.add_package("hello", &v, &req, &files).unwrap();
    let installed = db.get_package_version("hello");
    assert_eq!(check_installed(&installed, &v, true), Ok(true));
    db.remove_package("hello").unwrap();
    db.add_package("hello", &v, &req, &files).unwrap();
    assert_eq!(db.get_package_version("hello"), Some(v));
    assert_eq!(db.get_package_files("hello"), files);
    assert_eq!(db.get_installed_packages()[0].requested_version.as_text(), "1.2.0");
}

#[test]
fn destination_empty_after_expansion_takes_the_source() {
    let vars: VarsMap = vec![("exe_ext".to_string(), "".to_string())];
    let t = tree(&["bin/foo"]);
    let plan = plan_entry("bin/foo", "${exe_ext}", &vars, &t).unwrap();
    assert_eq!(plan, pairs(&[("bin/foo", "bin/foo")]));
}

#[test]
fn upgrade_uninstalls_only_after_verify_and_unpack() {
    assert_eq!(
        plan_install(false, true, true),
        vec![InstallStep::Download, InstallStep::VerifyChecksum, InstallStep::Unpack, InstallStep::UninstallOld, InstallStep::PlaceFiles, InstallStep::PlaceExtraFiles, InstallStep::Record, InstallStep::Clean]
    );
    assert_eq!(plan_install(true, false, false), vec![InstallStep::VerifyChecksum, InstallStep::Unpack, InstallStep::PlaceFiles, InstallStep::Record, InstallStep::Clean]);
}

#[test]
fn only_a_checksum_failure_deletes_the_cached_asset() {
    assert!(deletes_cached_asset_on_failure(InstallStep::VerifyChecksum));
    assert!(!deletes_cached_asset_on_failure(InstallStep::Download));
    assert!(!deletes_cached_asset_on_failure(InstallStep::Unpack));
}
