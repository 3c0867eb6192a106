use clyde::arch_os::{path_separator, Arch, ArchOs, Os};
use clyde::error::ErrorKind;

#[test]
fn test_parse() {
    assert_eq!(
        ArchOs::parse("x86_64-linux").unwrap(),
        ArchOs::new(Arch::X86_64, Os::Linux)
    );
    assert_eq!(
        ArchOs::parse("x86_64-unknown-linux-gnu").unwrap(),
        ArchOs::new(Arch::X86_64, Os::Linux)
    );
}

#[test]
fn test_to_str() {
    assert_eq!(ArchOs::new(Arch::X86_64, Os::Linux).to_str(), "x86_64-linux");
}

#[test]
fn parse_reads_any_and_every_pair() {
    assert_eq!(ArchOs::parse("any").unwrap(), ArchOs::any());
    assert_eq!(
        ArchOs::parse("any-macos").unwrap(),
        ArchOs::new(Arch::Any, Os::MacOs)
    );
    assert_eq!(
        ArchOs::parse("aarch64-windows").unwrap(),
        ArchOs::new(Arch::Aarch64, Os::Windows)
    );
    assert_eq!(ArchOs::parse("x86-any").unwrap(), ArchOs::new(Arch::X86, Os::Any));
}

#[test]
fn parse_rejects_malformed_keys() {
    assert_eq!(ArchOs::parse("x86_64"), Err(ErrorKind::DescriptorParse));
    assert_eq!(ArchOs::parse("x86_64-unknown"), Err(ErrorKind::DescriptorParse));
    assert_eq!(ArchOs::parse("z80-linux"), Err(ErrorKind::DescriptorParse));
    assert_eq!(ArchOs::parse("x86_64-plan9"), Err(ErrorKind::DescriptorParse));
    assert_eq!(ArchOs::parse(""), Err(ErrorKind::DescriptorParse));
}

#[test]
fn to_str_and_parse_round_trip() {
    for arch in [Arch::Any, Arch::X86_64, Arch::X86, Arch::Aarch64] {
        for os in [Os::Any, Os::Linux, Os::MacOs, Os::Windows] {
            let a = ArchOs::new(arch, os);
            assert_eq!(ArchOs::parse(&a.to_str()).unwrap(), a);
        }
    }
}

#[test]
fn fallback_keys_drop_one_component() {
    let a = ArchOs::new(Arch::X86_64, Os::Linux);
    assert_eq!(a.with_any_arch(), ArchOs::new(Arch::Any, Os::Linux));
    assert_eq!(a.with_any_os(), ArchOs::new(Arch::X86_64, Os::Any));
}

#[test]
fn path_separator_depends_on_host() {
    assert_eq!(path_separator(Os::Windows), ";");
    assert_eq!(path_separator(Os::Linux), ":");
}
