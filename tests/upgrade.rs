use clyde::db::{Database, PackageInfo};
use clyde::descriptor::RawPackage;
use clyde::package::{Asset, FetcherConfig, Package};
use clyde::upgrade::{get_newer_version, get_upgrades, Upgrade};
use clyde::version::{Version, VersionReq};

fn package(versions: &[&str]) -> Package {
    let raw = RawPackage {
        name: "foo".to_string(),
        description: "desc".to_string(),
        homepage: "".to_string(),
        repository: "".to_string(),
        releases: versions
            .iter()
            .map(|v| {
                (
                    v.to_string(),
                    vec![(
                        "any".to_string(),
                        Asset { url: "https://example.com".to_string(), sha256: "1234".to_string() },
                    )],
                )
            })
            .collect(),
        installs: vec![],
        fetcher: FetcherConfig::Auto,
    };
    Package::from_raw(raw, "").unwrap()
}

fn plan(db: &Database, store: Vec<Option<Package>>) -> (Vec<Upgrade>, Vec<Upgrade>) {
    let infos = db.get_installed_packages();
    get_upgrades(&infos, &store)
}

fn info(name: &str, v: Version, req: VersionReq) -> PackageInfo {
    PackageInfo { name: name.to_string(), installed_version: v, requested_version: req }
}

#[test]
fn upgrade_get_upgrades_should_return_an_empty_list_if_nothing_to_do() {
    let mut db = Database::new_in_memory();
    db.add_package("foo", &Version::new(1, 2, 0), &VersionReq::star(), &vec![]).unwrap();
    let (upgrades, blocked_upgrades) = plan(&db, vec![Some(package(&["1.2.0"]))]);
    assert!(upgrades.is_empty());
    assert!(blocked_upgrades.is_empty());
}

#[test]
fn get_upgrades_should_return_a_blocked_upgrade_if_upgrade_is_outside_requested_version() {
    let mut db = Database::new_in_memory();
    let version_req = VersionReq::parse("1.2.*").unwrap();
    db.add_package("foo", &Version::new(1, 2, 0), &version_req, &vec![]).unwrap();
    let (upgrades, blocked_upgrades) = plan(&db, vec![Some(package(&["1.2.0", "1.3.0"]))]);
    assert_eq!(upgrades, vec![]);
    let blocked_upgrade = Upgrade {
        package_info: info("foo", Version::new(1, 2, 0), VersionReq::parse("1.2.*").unwrap()),
        available_version: Version::new(1, 3, 0),
    };
    assert_eq!(blocked_upgrades, vec![blocked_upgrade]);
}

#[test]
fn get_upgrades_should_return_an_empty_list_if_upgrade_is_outside_requested_version() {
    let mut db = Database::new_in_memory();
    let version_req = VersionReq::parse("1.2.*").unwrap();
    db.add_package("foo", &Version::new(1, 2, 0), &version_req, &vec![]).unwrap();
    let (upgrades, _) = plan(&db, vec![Some(package(&["1.2.0", "1.3.0"]))]);
    assert!(upgrades.is_empty());
}

#[test]
fn upgrade_get_upgrades_should_return_upgrade_list() {
    let mut db = Database::new_in_memory();
    db.add_package("foo", &Version::new(1, 2, 0), &VersionReq::star(), &vec![]).unwrap();
    let (upgrades, blocked_upgrades) = plan(&db, vec![Some(package(&["1.2.0", "1.3.0"]))]);
    assert_eq!(
        upgrades,
        vec![Upgrade {
            package_info: info("foo", Version::new(1, 2, 0), VersionReq::star()),
            available_version: Version::new(1, 3, 0),
        }]
    );
    assert!(blocked_upgrades.is_empty());
}

#[test]
fn pinned_package_is_blocked_when_only_a_newer_version_is_left() {
    // installed hello 1.2.0 for 1.2.*; the store now only has 1.3.0
    let infos = vec![info("hello", Version::new(1, 2, 0), VersionReq::parse("1.2.*").unwrap())];
    let (upgrades, blocked) = get_upgrades(&infos, &vec![Some(package(&["1.3.0"]))]);
    assert!(upgrades.is_empty());
    assert_eq!(blocked.len(), 1);
    assert_eq!(blocked[0].package_info.name, "hello");
    assert_eq!(blocked[0].package_info.requested_version.as_text(), "1.2.*");
}

#[test]
fn missing_descriptors_are_skipped() {
    let infos = vec![
        info("gone", Version::new(1, 0, 0), VersionReq::star()),
        info("foo", Version::new(1, 2, 0), VersionReq::star()),
    ];
    let (upgrades, blocked) = get_upgrades(&infos, &vec![None, Some(package(&["1.3.0"]))]);
    assert_eq!(upgrades.len(), 1);
    assert_eq!(upgrades[0].package_info.name, "foo");
    assert_eq!(upgrades[0].package_info.requested_version, VersionReq::star());
    assert!(blocked.is_empty());
}

#[test]
fn newer_version_needs_a_strictly_greater_match() {
    let p = package(&["1.2.0", "1.3.0"]);
    assert_eq!(get_newer_version(&p, &Version::new(1, 3, 0), &VersionReq::star()), None);
    assert_eq!(
        get_newer_version(&p, &Version::new(1, 2, 5), &VersionReq::star()),
        Some(Version::new(1, 3, 0))
    );
}
