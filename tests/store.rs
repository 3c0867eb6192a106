use clyde::error::ErrorKind;
use clyde::store::{band, pick_existing, search, Band, GitStore, SearchHit};

fn hit(name: &str, description: &str) -> SearchHit {
    SearchHit { name: name.to_string(), description: description.to_string() }
}

#[test]
fn search_should_find_packages() {
    let entries = vec![
        hit("foo", "The foo package"),
        hit("bar", "The bar package"),
        hit("baz", "Helper package for Foo"),
    ];
    let result = search(&entries, "fOo");
    let names: Vec<String> = result.iter().map(|h| h.name.clone()).collect();
    assert_eq!(names, vec!["foo", "baz"]);
}

#[test]
fn names_come_before_descriptions() {
    let entries = vec![hit("a", "mentions zed"), hit("zed", "z"), hit("b", "nothing")];
    let result = search(&entries, "ZED");
    assert_eq!(result, vec![hit("zed", "z"), hit("a", "mentions zed")]);
    assert_eq!(band("zed", "x", "ze"), Some(Band::Name));
    assert_eq!(band("a", "zed", "ze"), Some(Band::Description));
    assert_eq!(band("a", "b", "ze"), None);
}

#[test]
fn find_package_path_should_not_try_to_read_files_without_yaml_extensions() {
    let store = GitStore::new("store");
    let candidates = store.candidate_paths("foo");
    assert_eq!(
        candidates,
        vec![
            "store/packages/foo/index.yaml",
            "store/packages/foo.yaml",
            "store/foo/index.yaml",
            "store/foo.yaml",
        ]
    );
    let direct = store.candidate_paths("some/dir/foo.yaml");
    assert_eq!(direct.len(), 5);
    assert_eq!(direct[4], "some/dir/foo.yaml");
}

#[test]
fn lookup_takes_the_first_existing_candidate() {
    let c = vec!["a".to_string(), "b".to_string(), "c".to_string()];
    assert_eq!(pick_existing(&c, &vec![false, true, true]), Ok(1));
    assert_eq!(pick_existing(&c, &vec![false, false, false]), Err(ErrorKind::PackageNotFound));
}
