use clyde::arch_os::{Arch, ArchOs, Os};
use clyde::descriptor::RawPackage;
use clyde::error::ErrorKind;
use clyde::install::resolve;
use clyde::package::{Asset, FetcherConfig, Install, Package};
use clyde::version::{Version, VersionReq};

fn asset(url: &str) -> Asset {
    Asset { url: url.to_string(), sha256: "1234".to_string() }
}

fn install(strip: u32, files: &[(&str, &str)]) -> Install {
    Install {
        strip,
        files: files.iter().map(|(s, d)| (s.to_string(), d.to_string())).collect(),
        extra_files: vec![],
        tests: vec![],
    }
}

fn raw(
    releases: Vec<(&str, Vec<(&str, Asset)>)>,
    installs: Vec<(&str, Vec<(&str, Install)>)>,
) -> RawPackage {
    RawPackage {
        name: "test".to_string(),
        description: "desc".to_string(),
        homepage: "".to_string(),
        repository: "".to_string(),
        releases: releases
            .into_iter()
            .map(|(v, m)| (v.to_string(), m.into_iter().map(|(k, a)| (k.to_string(), a)).collect()))
            .collect(),
        installs: installs
            .into_iter()
            .map(|(v, m)| (v.to_string(), m.into_iter().map(|(k, i)| (k.to_string(), i)).collect()))
            .collect(),
        fetcher: FetcherConfig::Auto,
    }
}

fn three_releases() -> Package {
    Package::from_raw(
        raw(
            vec![
                ("2.0.0", vec![("any", asset("https://example.com"))]),
                ("1.2.1", vec![("any", asset("https://example.com"))]),
                ("1.2.0", vec![("any", asset("https://example.com"))]),
            ],
            vec![],
        ),
        "",
    )
    .unwrap()
}

#[test]
fn test_get_version_matching() {
    let package = three_releases();

    let req300 = VersionReq::parse("3.0.0").unwrap();
    let req121 = VersionReq::parse("1.2.1").unwrap();
    let req12 = VersionReq::parse("1.2.*").unwrap();
    let req2 = VersionReq::parse(">=2").unwrap();

    let v121 = Version::new(1, 2, 1);
    let v200 = Version::new(2, 0, 0);

    assert_eq!(package.get_version_matching(&req300), None);
    assert_eq!(package.get_version_matching(&req121), Some(&v121));
    assert_eq!(package.get_version_matching(&req12), Some(&v121));
    assert_eq!(package.get_version_matching(&req2), Some(&v200));
}

#[test]
fn version_matching_skips_pre_releases_unless_asked() {
    let package = Package::from_raw(
        raw(
            vec![
                ("1.0.0", vec![("any", asset("u"))]),
                ("1.1.0-beta.2", vec![("any", asset("u"))]),
                ("1.1.0-beta.10", vec![("any", asset("u"))]),
            ],
            vec![],
        ),
        "",
    )
    .unwrap();
    assert_eq!(
        package.get_version_matching(&VersionReq::star()).unwrap().to_text(),
        "1.0.0"
    );
    let beta = VersionReq::parse(">=1.1.0-beta.1").unwrap();
    assert_eq!(
        package.get_version_matching(&beta).unwrap().to_text(),
        "1.1.0-beta.10"
    );
    assert_eq!(package.get_latest_version().unwrap().to_text(), "1.1.0-beta.10");
}

#[test]
fn pre_release_precedence_follows_semver() {
    let a = Version::parse("1.0.0-alpha").unwrap();
    let b = Version::parse("1.0.0-alpha.1").unwrap();
    let c = Version::parse("1.0.0-alpha.beta").unwrap();
    let d = Version::parse("1.0.0-beta.2").unwrap();
    let e = Version::parse("1.0.0-beta.11").unwrap();
    let f = Version::parse("1.0.0-rc.1").unwrap();
    let g = Version::parse("1.0.0").unwrap();
    let chain = [&a, &b, &c, &d, &e, &f, &g];
    for i in 0..chain.len() - 1 {
        assert!(chain[i].is_less(chain[i + 1]), "{:?} < {:?}", chain[i], chain[i + 1]);
        assert!(!chain[i + 1].is_less(chain[i]));
    }
    assert!(Version::new(1, 9, 0).is_less(&Version::new(1, 10, 0)));
}

#[test]
fn version_text_round_trips() {
    for t in ["0.1.0", "1.2.3-rc.1", "10.20.30+build.5", "1.0.0-alpha+001"] {
        assert_eq!(Version::parse(t).unwrap().to_text(), t);
    }
    assert_eq!(Version::parse("1.2"), Err(ErrorKind::DescriptorParse));
    assert_eq!(Version::parse("01.2.3"), Err(ErrorKind::DescriptorParse));
}

#[test]
fn get_install_should_use_the_any_arch_specific_os_install() {
    let package = Package::from_raw(
        raw(
            vec![],
            vec![(
                "1.0.0",
                vec![("any", install(1, &[("foo", "")])), ("any-macos", install(3, &[("foo", "")]))],
            )],
        ),
        "",
    )
    .unwrap();

    let install = package
        .get_install(&Version::new(1, 0, 0), &ArchOs::new(Arch::X86_64, Os::MacOs))
        .unwrap();

    assert_eq!(install.strip, 3);
}

#[test]
fn test_to_package() {
    let package = Package::from_raw(
        raw(
            vec![],
            vec![("1.2.0", vec![("any", install(1, &[("bin/foo-1.2", "bin/foo"), ("share", "")]))])],
        ),
        "",
    )
    .unwrap();
    let install = package
        .get_install(&Version::new(1, 2, 0), &ArchOs::new(Arch::X86_64, Os::Linux))
        .unwrap();
    assert_eq!(install.files[0], ("bin/foo-1.2".to_string(), "bin/foo".to_string()));
    assert_eq!(install.files[1], ("share".to_string(), "".to_string()));
}

#[test]
fn install_spec_applies_until_the_next_installs_version() {
    let package = Package::from_raw(
        raw(
            vec![],
            vec![
                ("1.0.0", vec![("any", install(1, &[]))]),
                ("2.0.0", vec![("any", install(2, &[]))]),
            ],
        ),
        "",
    )
    .unwrap();
    let host = ArchOs::new(Arch::X86_64, Os::Linux);
    assert_eq!(package.get_install(&Version::new(1, 5, 0), &host).unwrap().strip, 1);
    assert_eq!(package.get_install(&Version::new(2, 0, 0), &host).unwrap().strip, 2);
    assert_eq!(package.get_install(&Version::new(3, 1, 0), &host).unwrap().strip, 2);
    assert!(package.get_install(&Version::new(0, 9, 0), &host).is_none());
}

#[test]
fn asset_ladder_prefers_the_most_specific_key() {
    let package = Package::from_raw(
        raw(
            vec![(
                "1.0.0",
                vec![
                    ("any", asset("any")),
                    ("x86_64-any", asset("x86_64-any")),
                    ("any-linux", asset("any-linux")),
                    ("x86_64-linux", asset("x86_64-linux")),
                ],
            )],
            vec![],
        ),
        "",
    )
    .unwrap();
    let v = Version::new(1, 0, 0);
    let get = |a: Arch, o: Os| package.get_asset(&v, &ArchOs::new(a, o)).unwrap().url.clone();
    assert_eq!(get(Arch::X86_64, Os::Linux), "x86_64-linux");
    assert_eq!(get(Arch::Aarch64, Os::Linux), "any-linux");
    assert_eq!(get(Arch::X86_64, Os::Windows), "x86_64-any");
    assert_eq!(get(Arch::Aarch64, Os::MacOs), "any");
    assert!(package.get_asset(&Version::new(9, 0, 0), &ArchOs::any()).is_none());
}

#[test]
fn adding_an_entry_keeps_a_resolution() {
    let mut releases = vec![("1.0.0", vec![("any-linux", asset("any-linux"))])];
    let host = ArchOs::new(Arch::X86_64, Os::Linux);
    let before = Package::from_raw(raw(releases.clone(), vec![]), "").unwrap();
    assert_eq!(before.get_asset(&Version::new(1, 0, 0), &host).unwrap().url, "any-linux");
    releases[0].1.push(("x86_64-linux", asset("x86_64-linux")));
    let after = Package::from_raw(raw(releases, vec![]), "").unwrap();
    assert_eq!(after.get_asset(&Version::new(1, 0, 0), &host).unwrap().url, "x86_64-linux");
}

#[test]
fn resolve_reports_each_missing_step() {
    let package = Package::from_raw(
        raw(
            vec![("1.2.0", vec![("x86_64-linux", asset("u"))])],
            vec![("1.2.0", vec![("x86_64-linux", install(1, &[]))])],
        ),
        "",
    )
    .unwrap();
    let linux = ArchOs::new(Arch::X86_64, Os::Linux);
    let mac = ArchOs::new(Arch::X86_64, Os::MacOs);
    assert_eq!(
        resolve(&package, &VersionReq::parse("2").unwrap(), &linux).err(),
        Some(ErrorKind::NoMatchingVersion)
    );
    assert_eq!(
        resolve(&package, &VersionReq::star(), &mac).err(),
        Some(ErrorKind::NoAssetForHost)
    );
    let ok = resolve(&package, &VersionReq::star(), &linux).ok().unwrap();
    assert_eq!(ok.version.to_text(), "1.2.0");
    assert_eq!(ok.install.strip, 1);

    let no_install = Package::from_raw(
        raw(vec![("1.2.0", vec![("any", asset("u"))])], vec![("1.3.0", vec![("any", install(1, &[]))])]),
        "",
    )
    .unwrap();
    assert_eq!(
        resolve(&no_install, &VersionReq::star(), &linux).err(),
        Some(ErrorKind::NoInstallSpec)
    );
}

#[test]
fn descriptor_round_trips_through_its_raw_form() {
    let written_form = raw(
        vec![
            ("1.2.0", vec![("x86_64-linux", asset("a")), ("any", asset("b"))]),
            ("1.3.0-rc.1", vec![("aarch64-macos", asset("c"))]),
        ],
        vec![("1.0.0", vec![("any-windows", install(2, &[("bin/x", "bin/")]))])],
    );
    let p = Package::from_raw(written_form, "dir").unwrap();
    let first = p.into_raw();
    assert_eq!(first.releases[0].0, "1.2.0");
    assert_eq!(first.releases[0].1[0].0, "x86_64-linux");
    assert_eq!(first.installs[0].1[0].0, "any-windows");
    let again = Package::from_raw(first, "dir").unwrap();
    let second = again.into_raw();
    assert_eq!(second.releases[1].0, "1.3.0-rc.1");
    assert_eq!(second.releases[1].1[0], ("aarch64-macos".to_string(), asset("c")));
    assert_eq!(second.installs[0].1[0].1, install(2, &[("bin/x", "bin/")]));
}

#[test]
fn malformed_keys_fail_to_read() {
    let bad_version = raw(vec![("1.2", vec![("any", asset("a"))])], vec![]);
    assert_eq!(Package::from_raw(bad_version, "").err(), Some(ErrorKind::DescriptorParse));
    let bad_key = raw(vec![("1.2.0", vec![("z80-cpm", asset("a"))])], vec![]);
    assert_eq!(Package::from_raw(bad_key, "").err(), Some(ErrorKind::DescriptorParse));
}

#[test]
fn replace_release_swaps_or_adds_assets() {
    let p = three_releases();
    let p = p.replace_release(&Version::new(1, 2, 1), vec![(ArchOs::any(), asset("new"))]);
    assert_eq!(p.releases.len(), 3);
    assert_eq!(p.releases[1].1, vec![(ArchOs::any(), asset("new"))]);
    let p = p.replace_release(&Version::new(3, 0, 0), vec![(ArchOs::any(), asset("three"))]);
    assert_eq!(p.releases.len(), 4);
    assert_eq!(p.releases[3].0, Version::new(3, 0, 0));
    assert_eq!(p.get_latest_version(), Some(&Version::new(3, 0, 0)));
}

#[test]
fn adding_an_arch_os_entry_to_an_installs_version_keeps_a_resolution() {
    let host = ArchOs::new(Arch::Aarch64, Os::MacOs);
    let mut installs = vec![("1.0.0", vec![("any", install(1, &[]))])];
    let before = Package::from_raw(raw(vec![], installs.clone()), "").unwrap();
    assert_eq!(before.get_install(&Version::new(1, 2, 0), &host).unwrap().strip, 1);
    installs[0].1.push(("x86_64-linux", install(2, &[])));
    let after = Package::from_raw(raw(vec![], installs), "").unwrap();
    assert_eq!(after.get_install(&Version::new(1, 2, 0), &host).unwrap().strip, 1);
}

#[test]
fn equal_precedence_keys_resolve_to_the_first_entry() {
    let package = Package::from_raw(
        raw(
            vec![
                ("1.0.0+a", vec![("any", asset("first"))]),
                ("1.0.0+b", vec![("any", asset("second"))]),
            ],
            vec![("1.0.0", vec![("any", install(1, &[]))])],
        ),
        "",
    )
    .unwrap();
    let r = resolve(&package, &VersionReq::star(), &ArchOs::any()).ok().unwrap();
    assert_eq!(r.version.to_text(), "1.0.0+a");
    assert_eq!(r.asset.url, "first");
}
