use clyde::db::Database;
use clyde::error::ErrorKind;
use clyde::version::{Version, VersionReq};

#[test]
fn add_package_adds_version_files() {
    let mut db = Database::new_in_memory();
    let package = "pkg";
    let installed_version = Version::parse("1.2.3").unwrap();
    let requested_version = VersionReq::parse("1.2.*").unwrap();
    let files = vec!["bin/p".to_string(), "share/p".to_string()];

    let result = db.add_package(package, &installed_version, &requested_version, &files);
    assert!(result.is_ok(), "{:?}", result);

    assert!(db.get_package_version(package) == Some(installed_version));
    assert!(db.get_package_files(package) == files);
}

#[test]
fn get_package_version_returns_none_if_package_is_not_installed() {
    let db = Database::new_in_memory();
    let result = db.get_package_version("not_there");
    assert!(result == None);
}

#[test]
fn get_installed_packages_should_return_packages_in_correct_order() {
    let mut db = Database::new_in_memory();
    let installed_version = Version::parse("1.2.3").unwrap();
    for name in &["bob", "alice", "deborah", "carl"] {
        db.add_package(name, &installed_version, &VersionReq::star(), &vec![]).unwrap();
    }
    let packages = db.get_installed_packages();
    let names: Vec<String> = packages.iter().map(|x| x.name.clone()).collect();
    assert_eq!(names, &["alice", "bob", "carl", "deborah"]);
}

#[test]
fn adding_a_package_twice_fails() {
    let mut db = Database::new_in_memory();
    let v = Version::new(1, 0, 0);
    db.add_package("p", &v, &VersionReq::star(), &vec![]).unwrap();
    assert_eq!(
        db.add_package("p", &v, &VersionReq::star(), &vec![]),
        Err(ErrorKind::DatabaseError)
    );
}

#[test]
fn remove_package_drops_its_files() {
    let mut db = Database::new_in_memory();
    let v = Version::new(1, 0, 0);
    db.add_package("alpha", &v, &VersionReq::star(), &vec!["bin/a".to_string()]).unwrap();
    db.add_package("beta", &v, &VersionReq::star(), &vec!["bin/b2".to_string(), "share/man/f2".to_string()]).unwrap();
    db.remove_package("beta").unwrap();
    assert!(db.get_package_files("beta").is_empty());
    assert_eq!(db.get_package_version("beta"), None);
    assert_eq!(db.get_package_files("alpha"), vec!["bin/a".to_string()]);
}

#[test]
fn version_change_keeps_the_requested_requirement() {
    // install hello@=1.2.0 then upgrade to 1.3.0: the engine uninstalls, then records again
    let mut db = Database::new_in_memory();
    let req = VersionReq::star();
    db.add_package("hello", &Version::new(1, 2, 0), &req, &vec!["bin/hello".to_string()]).unwrap();
    db.remove_package("hello").unwrap();
    db.add_package(
        "hello",
        &Version::new(1, 3, 0),
        &req,
        &vec!["bin/hello".to_string(), "share/doc/hello/README.md".to_string()],
    )
    .unwrap();
    assert_eq!(db.get_package_version("hello"), Some(Version::new(1, 3, 0)));
    let infos = db.get_installed_packages();
    assert_eq!(infos.len(), 1);
    assert_eq!(infos[0].requested_version.as_text(), "*");
    assert_eq!(db.get_package_files("hello").len(), 2);
}
