use clyde::arch_os::Os;
use clyde::error::ErrorKind;
use clyde::unpacker::{
    apply_strip, compression, get_file_name, get_unpacker, plan_extraction, Compression,
    ExeUnpacker, SingleFileUnpacker, TarUnpacker, Unpacker, ZipUnpacker,
};

/// The first bytes of a 64-bit little-endian ELF executable such as `/bin/ls`.
fn elf_header() -> Vec<u8> {
    vec![0x7f, 0x45, 0x4c, 0x46, 0x02, 0x01, 0x01, 0x00, 0, 0, 0, 0, 0, 0, 0, 0]
}

/// The first bytes of a zip archive: a local file header.
fn zip_header() -> Vec<u8> {
    vec![
        0x50, 0x4b, 0x03, 0x04, 0x14, 0x00, 0x00, 0x00, 0x08, 0x00, 0x21, 0x5a, 0x6b, 0x55, 0x00,
        0x00,
    ]
}

#[test]
fn exe_unpacker_supports_should_accept_executable() {
    let header = elf_header();
    assert!(ExeUnpacker::supports(&header, Os::Linux));
}

#[test]
fn exe_unpacker_supports_should_not_accept_zip_files() {
    assert!(!ExeUnpacker::supports(&zip_header(), Os::Linux));
}

#[test]
fn exe_unpacker_needs_sixteen_bytes() {
    let header = elf_header();
    assert!(!ExeUnpacker::supports(&header[..8].to_vec(), Os::Linux));
    assert!(!ExeUnpacker::supports(&header, Os::Windows));
}

#[test]
fn supports_should_not_accept_tar_compressed_files() {
    assert!(!SingleFileUnpacker::supports("foo.tar.gz"));
    assert!(!SingleFileUnpacker::supports("foo.tar.bz2"));
    assert!(!SingleFileUnpacker::supports("foo.tar.xz"));
}

#[test]
fn single_file_unpacker_accepts_compressed_files() {
    assert!(SingleFileUnpacker::supports("test_exe.gz"));
    assert!(SingleFileUnpacker::supports("test_exe.bz2"));
    assert!(SingleFileUnpacker::supports("test_exe.xz"));
    assert!(!SingleFileUnpacker::supports("test_exe"));
}

#[test]
fn tar_and_zip_supports_go_by_extension() {
    for name in ["a.tar.gz", "a.tar.bz2", "a.tar.xz", "a.tgz", "a.tbz2"] {
        assert!(TarUnpacker::supports(name));
    }
    assert!(!TarUnpacker::supports("a.zip"));
    assert!(ZipUnpacker::supports("a.zip"));
    assert!(!ZipUnpacker::supports("a.tar.gz"));
}

#[test]
fn unpacker_utils_apply_strip_should_strip_1() {
    assert_eq!(apply_strip("foo/bar", 1), Some("bar".to_string()));
}

#[test]
fn unpacker_utils_apply_strip_should_return_none_when_stripping_too_much() {
    assert_eq!(apply_strip("foo/bar", 2), None);
}

#[test]
fn zip_unpacker_apply_strip_should_strip_1() {
    assert_eq!(apply_strip("foo/bar", 1), Some("bar".to_string()));
}

#[test]
fn zip_unpacker_apply_strip_should_return_none_when_stripping_too_much() {
    assert_eq!(apply_strip("foo/bar", 2), None);
}

#[test]
fn apply_strip_keeps_the_rest_of_the_path() {
    assert_eq!(apply_strip("hello/bin/hello", 1), Some("bin/hello".to_string()));
    assert_eq!(apply_strip("hello/bin/hello", 0), Some("hello/bin/hello".to_string()));
    assert_eq!(apply_strip("hello//bin/", 1), Some("bin".to_string()));
    assert_eq!(apply_strip("hello", 1), None);
}

#[test]
fn get_unpacker_dispatches_on_name_then_header() {
    let none = vec![0u8; 16];
    assert!(matches!(
        get_unpacker("/tmp/a/hello.tar.gz", &none, Os::Linux),
        Ok(Unpacker::Tar(_))
    ));
    assert!(matches!(
        get_unpacker("/tmp/a/hello.zip", &none, Os::Linux),
        Ok(Unpacker::Zip(_))
    ));
    assert!(matches!(
        get_unpacker("/tmp/a/hello.gz", &none, Os::Linux),
        Ok(Unpacker::SingleFile(_))
    ));
    let elf = elf_header();
    match get_unpacker("/tmp/a/hello", &elf, Os::Linux) {
        Ok(Unpacker::Exe(u)) => assert_eq!(u.archive_path, "/tmp/a/hello"),
        other => panic!("unexpected {:?}", other),
    }
    assert_eq!(
        get_unpacker("/tmp/a/hello.deb", &none, Os::Linux).err(),
        Some(ErrorKind::UnsupportedArchive)
    );
}

#[test]
fn compression_goes_by_extension() {
    assert_eq!(compression("a.tgz"), Some(Compression::Gzip));
    assert_eq!(compression("a.tar.bz2"), Some(Compression::Bzip2));
    assert_eq!(compression("a.xz"), Some(Compression::Xz));
    assert_eq!(compression("a.zip"), None);
}

#[test]
fn file_name_is_the_last_component() {
    assert_eq!(get_file_name("a/b/c.txt").unwrap(), "c.txt");
    assert_eq!(get_file_name("a/b/").unwrap(), "b");
    assert_eq!(get_file_name("/"), Err(ErrorKind::IoError));
}

#[test]
fn extraction_strips_and_skips_directories() {
    let entries = vec![
        ("hello/".to_string(), true),
        ("hello/bin/hello".to_string(), false),
        ("hello/README.md".to_string(), false),
        ("top".to_string(), false),
    ];
    let plan = plan_extraction(&entries, 1).unwrap();
    assert_eq!(
        plan,
        vec![(1, "bin/hello".to_string()), (2, "README.md".to_string())]
    );
}

#[test]
fn strip_beyond_the_deepest_path_places_nothing() {
    let entries = vec![
        ("hello/bin/hello".to_string(), false),
        ("hello/README.md".to_string(), false),
    ];
    assert!(plan_extraction(&entries, 3).unwrap().is_empty());
    assert!(plan_extraction(&entries, 4).unwrap().is_empty());
}

#[test]
fn extraction_refuses_escaping_paths() {
    let entries = vec![("hello/../../etc/passwd".to_string(), false)];
    assert_eq!(plan_extraction(&entries, 1), Err(ErrorKind::UnsafeArchive));
    let entries = vec![("/etc/passwd".to_string(), false)];
    assert_eq!(plan_extraction(&entries, 0), Err(ErrorKind::UnsafeArchive));
}

#[test]
fn file_name_follows_path_rules() {
    assert_eq!(get_file_name("a/.."), Err(ErrorKind::IoError));
    assert_eq!(get_file_name("a/.").unwrap(), "a");
    assert_eq!(get_file_name("./b/./").unwrap(), "b");
    assert_eq!(get_file_name("."), Err(ErrorKind::IoError));
}
