use clyde::arch_os::Os;
use clyde::error::ErrorKind;
use clyde::vars::{create_vars_map, expand_var, expand_vars, VarsMap};

fn _test_expand_var(src: &str, key: &str, value: &str, expected: &str) {
    let result = expand_var(src, key, value);
    assert_eq!(result, expected);
}

#[test]
fn test_expand_var() {
    _test_expand_var("foo${exe}", "exe", ".exe", "foo.exe");
    _test_expand_var("${dir}/bar", "dir", "some/where", "some/where/bar");
}

#[test]
fn test_expand_vars() {
    let map: VarsMap = vec![
        ("exe".into(), ".exe".into()),
        ("dir".into(), "some/where".into()),
    ];

    let result = expand_vars("${dir}/foo${exe}", &map).unwrap();
    assert_eq!(result, "some/where/foo.exe");
}

#[test]
fn expand_vars_should_fail_on_unknown_vars() {
    let map: VarsMap = vec![("exe".into(), ".exe".into())];

    let result = expand_vars("foo${ex}", &map);
    assert!(result.is_err());
    assert_eq!(result, Err(ErrorKind::UnknownVariable));
}

#[test]
fn expand_var_replaces_every_occurrence() {
    assert_eq!(expand_var("${a}-${a}-${b}", "a", "x"), "x-x-${b}");
    assert_eq!(expand_var("no tokens", "a", "x"), "no tokens");
    assert_eq!(expand_var("", "a", "x"), "");
}

#[test]
fn vars_map_holds_the_engine_variables() {
    let map = create_vars_map(&None, "hello", Os::Linux);
    assert_eq!(map.len(), 4);
    assert_eq!(map[0], ("exe_ext".to_string(), "".to_string()));
    assert_eq!(map[1], ("doc_dir".to_string(), "share/doc/hello/".to_string()));
    assert_eq!(
        map[2],
        (
            "bash_comp_dir".to_string(),
            "share/bash-completions/completions/".to_string()
        )
    );
    assert_eq!(map[3], ("zsh_comp_dir".to_string(), "share/zsh-completions/".to_string()));

    let map = create_vars_map(&Some("hello-x86_64".to_string()), "hello", Os::Windows);
    assert_eq!(map.len(), 5);
    assert_eq!(map[0].1, ".exe");
    assert_eq!(map[4], ("asset_name".to_string(), "hello-x86_64".to_string()));
    assert_eq!(
        expand_vars("bin/${asset_name}${exe_ext}", &map).unwrap(),
        "bin/hello-x86_64.exe"
    );
}

#[test]
fn expansion_does_not_rescan_substituted_text() {
    let map: VarsMap = vec![("a".into(), "$".into()), ("b".into(), "X".into())];
    assert_eq!(expand_vars("${a}{b}", &map), Err(ErrorKind::UnknownVariable));
    assert_eq!(expand_vars("${b}${a}", &map).unwrap(), "X$");
    assert_eq!(expand_vars("no tokens here", &map).unwrap(), "no tokens here");
    assert_eq!(expand_vars("open ${b", &map), Err(ErrorKind::UnknownVariable));
}
