use clyde::arch_os::Os;
use clyde::db::Database;
use clyde::error::ErrorKind;
use clyde::uninstall::{plan_uninstall, prepend_underscore, UninstallAction};
use clyde::version::{Version, VersionReq};

#[test]
fn prepend_underscore_prefixes_the_file_name() {
    assert_eq!(prepend_underscore("home/inst/bin/clyde.exe"), "home/inst/bin/_clyde.exe");
    assert_eq!(prepend_underscore("clyde.exe"), "_clyde.exe");
}

fn db_with(name: &str, files: &[&str]) -> Database {
    let mut db = Database::new_in_memory();
    let files: Vec<String> = files.iter().map(|s| s.to_string()).collect();
    db.add_package(name, &Version::new(0, 1, 0), &VersionReq::star(), &files).unwrap();
    db
}

#[test]
fn uninstall_should_only_remove_the_package_files() {
    let db = db_with("p2", &["bin/b2", "share/man/f2"]);
    let steps = plan_uninstall(&db, "p2", "inst", "/usr/bin/clyde", Os::Linux).unwrap();
    assert_eq!(
        steps,
        vec![
            UninstallAction::Remove { path: "inst/bin/b2".to_string() },
            UninstallAction::Remove { path: "inst/share/man/f2".to_string() },
        ]
    );
}

#[test]
fn uninstalling_a_missing_package_fails() {
    let db = Database::new_in_memory();
    assert_eq!(
        plan_uninstall(&db, "nope", "inst", "x", Os::Linux),
        Err(ErrorKind::NotInstalled)
    );
}

#[test]
fn self_replace_removes_the_running_binary_on_linux() {
    let db = db_with("clyde", &["bin/clyde"]);
    let steps = plan_uninstall(&db, "clyde", "/h/inst", "/h/inst/bin/clyde", Os::Linux).unwrap();
    assert_eq!(steps, vec![UninstallAction::Remove { path: "/h/inst/bin/clyde".to_string() }]);
}

#[test]
fn self_replace_moves_the_running_binary_aside_on_windows() {
    let db = db_with("clyde", &["bin/clyde.exe", "share/doc/clyde/README.md"]);
    let steps =
        plan_uninstall(&db, "clyde", "C:/h/inst", "C:/h/inst/bin/clyde.exe", Os::Windows).unwrap();
    assert_eq!(
        steps,
        vec![
            UninstallAction::MoveAside {
                from: "C:/h/inst/bin/clyde.exe".to_string(),
                to: "C:/h/inst/bin/_clyde.exe".to_string(),
            },
            UninstallAction::Remove { path: "C:/h/inst/share/doc/clyde/README.md".to_string() },
        ]
    );
}
