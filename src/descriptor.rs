//! The descriptor as written in a file: version and arch-os keys as text. Reading turns the
//! keys into typed values, writing turns them back, and the two round-trip.
use vstd::prelude::*;
use crate::arch_os::{Arch, Os, ArchOs, arch_os_text, parse_arch_os, tokens, arch_name, os_name, arch_named, os_named};
use crate::error::ErrorKind;
use crate::package::{Asset, FetcherConfig, Install, Package};
use crate::version::{Version, version_text, semver_accepts_version};

verus! {

/// A descriptor with its keys as text, as a YAML file holds it.
#[derive(Debug)]
pub struct RawPackage {
    pub name: String,
    pub description: String,
    pub homepage: String,
    pub repository: String,
    pub releases: Vec<(String, Vec<(String, Asset)>)>,
    pub installs: Vec<(String, Vec<(String, Install)>)>,
    pub fetcher: FetcherConfig,
}

/// Each text key of `raw` reads as the arch-os key of `typed`, values unchanged.
pub open spec fn keys_read<T>(raw: Seq<(String, T)>, typed: Seq<(ArchOs, T)>) -> bool {
    raw.len() == typed.len() && forall|i: int| 0 <= i < raw.len()
        ==> parse_arch_os((#[trigger] raw[i]).0@) == Some(typed[i].0) && raw[i].1 == typed[i].1
}

/// Each text key of `raw` is the written form of the arch-os key of `typed`.
pub open spec fn keys_written<T>(raw: Seq<(String, T)>, typed: Seq<(ArchOs, T)>) -> bool {
    raw.len() == typed.len() && forall|i: int| 0 <= i < raw.len()
        ==> (#[trigger] raw[i]).0@ == arch_os_text(typed[i].0) && raw[i].1 == typed[i].1
}

/// Each version key of `raw` is the text of the version of `typed`, and its map matches
/// through `keys`.
pub open spec fn versions_match<T>(raw: Seq<(String, Vec<(String, T)>)>, typed: Seq<(Version, Vec<(ArchOs, T)>)>, written: bool) -> bool {
    raw.len() == typed.len() && forall|i: int| 0 <= i < raw.len() ==> (#[trigger] raw[i]).0@ == version_text(typed[i].0)
        && if written { keys_written(raw[i].1@, typed[i].1@) } else { keys_read(raw[i].1@, typed[i].1@) }
}

/// Every key of `raw` reads.
pub open spec fn keys_readable<T>(raw: Seq<(String, Vec<(String, T)>)>) -> bool {
    forall|i: int, j: int| 0 <= i < raw.len() && 0 <= j < raw[i].1@.len()
        ==> semver_accepts_version(raw[i].0@) && parse_arch_os((#[trigger] raw[i].1@[j]).0@) is Some
}

/// Every version key of `raw` reads.
pub open spec fn versions_readable<T>(raw: Seq<(String, Vec<(String, T)>)>) -> bool {
    forall|i: int| 0 <= i < raw.len() ==> semver_accepts_version((#[trigger] raw[i]).0@)
}

/// The text fields and the fetcher of `p` and `raw` agree.
pub open spec fn same_header(p: Package, raw: RawPackage) -> bool {
    &&& p.name@ == raw.name@
    &&& p.description@ == raw.description@
    &&& p.homepage@ == raw.homepage@
    &&& p.repository@ == raw.repository@
    &&& p.fetcher == raw.fetcher
}

/// `p` is what reading `raw` gives.
pub open spec fn read_from(p: Package, raw: RawPackage) -> bool {
    &&& same_header(p, raw)
    &&& versions_match(raw.releases@, p.releases@, false)
    &&& versions_match(raw.installs@, p.installs@, false)
}

/// `raw` is what writing `p` gives.
pub open spec fn written_from(raw: RawPackage, p: Package) -> bool {
    &&& same_header(p, raw)
    &&& versions_match(raw.releases@, p.releases@, true)
    &&& versions_match(raw.installs@, p.installs@, true)
}

/// Every key of `raw` reads.
pub open spec fn readable(raw: RawPackage) -> bool {
    &&& versions_readable(raw.releases@)
    &&& keys_readable(raw.releases@)
    &&& versions_readable(raw.installs@)
    &&& keys_readable(raw.installs@)
}

/// Two descriptors are equal: same text fields and fetcher, and the same entries in the
/// same order, with versions written alike and equal arch-os keys and values.
pub open spec fn same_descriptor(p: Package, q: Package) -> bool {
    &&& p.name@ == q.name@
    &&& p.description@ == q.description@
    &&& p.homepage@ == q.homepage@
    &&& p.repository@ == q.repository@
    &&& p.fetcher == q.fetcher
    &&& p.releases@.len() == q.releases@.len()
    &&& forall|i: int| 0 <= i < p.releases@.len() ==> version_text((#[trigger] p.releases@[i]).0) == version_text(q.releases@[i].0)
        && p.releases@[i].1@ == q.releases@[i].1@
    &&& p.installs@.len() == q.installs@.len()
    &&& forall|i: int| 0 <= i < p.installs@.len() ==> version_text((#[trigger] p.installs@[i]).0) == version_text(q.installs@[i].0)
        && p.installs@[i].1@ == q.installs@[i].1@
}

/// The arch-os keys of one map, read.
fn read_keys<T>(entries: Vec<(String, T)>) -> (r: Result<Vec<(ArchOs, T)>, ErrorKind>)
    ensures
        match r {
            Ok(v) => keys_read(entries@, v@) && forall|i: int| 0 <= i < entries@.len() ==> parse_arch_os((#[trigger] entries@[i]).0@) is Some,
            Err(e) => e == ErrorKind::DescriptorParse && exists|i: int| 0 <= i < entries@.len() && parse_arch_os((#[trigger] entries@[i]).0@) is None,
        },
{
    let ghost all = entries@;
    let mut rest = entries;
    let mut out: Vec<(ArchOs, T)> = Vec::new();
    let mut k: usize = 0;
    assert(all.len() == rest.len());
    while rest.len() > 0
        invariant
            k <= all.len(),
            all == entries@,
            all.len() <= usize::MAX,
            rest@ == all.subrange(k as int, all.len() as int),
            out@.len() == k,
            forall|i: int| 0 <= i < k ==> parse_arch_os((#[trigger] all[i]).0@) == Some(out@[i].0) && all[i].1 == out@[i].1,
        decreases rest@.len(),
    {
        let (key, value) = rest.remove(0);
        assert(all[k as int] == (key, value));
        let parsed = ArchOs::parse(key.as_str());
        if parsed.is_err() {
            assert(parse_arch_os(all[k as int].0@) is None);
            assert(0 <= k < entries@.len());
            return Err(ErrorKind::DescriptorParse);
        }
        match parsed {
            Ok(a) => {
                out.push((a, value));
            },
            Err(_) => {},
        }
        k += 1;
    }
    Ok(out)
}

/// The arch-os keys of one map, written.
fn write_keys<T>(entries: Vec<(ArchOs, T)>) -> (r: Vec<(String, T)>)
    ensures
        keys_written(r@, entries@),
{
    let ghost all = entries@;
    let mut rest = entries;
    let mut out: Vec<(String, T)> = Vec::new();
    let mut k: usize = 0;
    assert(all.len() == rest.len());
    while rest.len() > 0
        invariant
            k <= all.len(),
            all == entries@,
            all.len() <= usize::MAX,
            rest@ == all.subrange(k as int, all.len() as int),
            out@.len() == k,
            forall|i: int| 0 <= i < k ==> (#[trigger] out@[i]).0@ == arch_os_text(all[i].0) && out@[i].1 == all[i].1,
        decreases rest@.len(),
    {
        let (key, value) = rest.remove(0);
        assert(all[k as int] == (key, value));
        out.push((key.to_str(), value));
        k += 1;
    }
    out
}

/// The version keys of a versioned map, and the arch-os keys below them, read.
fn read_versions<T>(entries: Vec<(String, Vec<(String, T)>)>) -> (r: Result<Vec<(Version, Vec<(ArchOs, T)>)>, ErrorKind>)
    ensures
        match r {
            Ok(v) => versions_match(entries@, v@, false) && versions_readable(entries@) && keys_readable(entries@),
            Err(e) => e == ErrorKind::DescriptorParse && !(versions_readable(entries@) && keys_readable(entries@)),
        },
        versions_readable(entries@) && keys_readable(entries@) ==> r is Ok,
{
    let ghost all = entries@;
    let mut rest = entries;
    let mut out: Vec<(Version, Vec<(ArchOs, T)>)> = Vec::new();
    let mut k: usize = 0;
    assert(all.len() == rest.len());
    while rest.len() > 0
        invariant
            k <= all.len(),
            all == entries@,
            all.len() <= usize::MAX,
            rest@ == all.subrange(k as int, all.len() as int),
            out@.len() == k,
            forall|i: int| 0 <= i < k ==> (#[trigger] all[i]).0@ == version_text(out@[i].0) && keys_read(all[i].1@, out@[i].1@),
            forall|i: int| 0 <= i < k ==> semver_accepts_version((#[trigger] all[i]).0@),
            forall|i: int, j: int| 0 <= i < k && 0 <= j < all[i].1@.len() ==> parse_arch_os((#[trigger] all[i].1@[j]).0@) is Some,
        decreases rest@.len(),
    {
        let (key, map) = rest.remove(0);
        assert(all[k as int].0 == key && all[k as int].1 == map);
        let version = match Version::parse(key.as_str()) {
            Ok(v) => v,
            Err(e) => {
                assert(!versions_readable(all)) by { assert(!semver_accepts_version(all[k as int].0@)); }
                return Err(e);
            },
        };
        let typed = match read_keys(map) {
            Ok(t) => t,
            Err(e) => {
                proof {
                    let j = choose|j: int| 0 <= j < all[k as int].1@.len() && parse_arch_os((#[trigger] all[k as int].1@[j]).0@) is None;
                    assert(!keys_readable(all)) by {
                        assert(parse_arch_os(all[k as int].1@[j].0@) is None);
                    }
                }
                return Err(e);
            },
        };
        out.push((version, typed));
        k += 1;
    }
    assert(all.len() == k);
    Ok(out)
}

/// The version keys of a versioned map, and the arch-os keys below them, written.
fn write_versions<T>(entries: Vec<(Version, Vec<(ArchOs, T)>)>) -> (r: Vec<(String, Vec<(String, T)>)>)
    ensures
        versions_match(r@, entries@, true),
{
    let ghost all = entries@;
    let mut rest = entries;
    let mut out: Vec<(String, Vec<(String, T)>)> = Vec::new();
    let mut k: usize = 0;
    assert(all.len() == rest.len());
    while rest.len() > 0
        invariant
            k <= all.len(),
            all == entries@,
            all.len() <= usize::MAX,
            rest@ == all.subrange(k as int, all.len() as int),
            out@.len() == k,
            forall|i: int| 0 <= i < k ==> (#[trigger] out@[i]).0@ == version_text(all[i].0) && keys_written(out@[i].1@, all[i].1@),
        decreases rest@.len(),
    {
        let (version, map) = rest.remove(0);
        assert(all[k as int].0 == version && all[k as int].1 == map);
        out.push((version.to_text(), write_keys(map)));
        k += 1;
    }
    out
}

impl Package {
    /// Reads a descriptor: every version key must be a semantic version and every arch-os
    /// key `any`, `<arch>-<os>` or a target triple; otherwise `DescriptorParse`.
    pub fn from_raw(raw: RawPackage, package_dir: &str) -> (r: Result<Package, ErrorKind>)
        ensures
            match r {
                Ok(p) => read_from(p, raw) && p.package_dir@ == package_dir@,
                Err(e) => e == ErrorKind::DescriptorParse && !readable(raw),
            },
            r is Ok <==> readable(raw),
    {
        let ghost whole = raw;
        let RawPackage { name, description, homepage, repository, releases, installs, fetcher } = raw;
        let releases = read_versions(releases)?;
        let installs = read_versions(installs)?;
        Ok(Package { name, description, homepage, repository, releases, installs, package_dir: package_dir.to_owned(), fetcher })
    }

    /// Writes a descriptor, its keys as text.
    pub fn into_raw(self) -> (r: RawPackage)
        ensures
            written_from(r, self),
    {
        let Package { name, description, homepage, repository, releases, installs, package_dir, fetcher } = self;
        RawPackage {
            name,
            description,
            homepage,
            repository,
            releases: write_versions(releases),
            installs: write_versions(installs),
            fetcher,
        }
    }
}

/// A key without `sep` is a single token.
proof fn lemma_tokens_single(s: Seq<char>, sep: char)
    requires
        forall|k: int| 0 <= k < s.len() ==> s[k] != sep,
    ensures
        tokens(s, sep) == seq![s],
    decreases s.len(),
{
    if s.len() > 0 {
        let d = s.drop_last();
        assert forall|k: int| 0 <= k < d.len() implies d[k] != sep by {
            assert(d[k] == s[k]);
        }
        lemma_tokens_single(d, sep);
        assert(s[s.len() - 1] != sep);
        assert(d.push(s.last()) =~= s);
        assert(seq![d].update(0, d.push(s.last())) =~= seq![s]);
    } else {
        assert(s =~= Seq::<char>::empty());
    }
}

/// Tokens of `s`, a separator, then `t` without separators.
proof fn lemma_tokens_append(s: Seq<char>, t: Seq<char>, sep: char)
    requires
        forall|k: int| 0 <= k < t.len() ==> t[k] != sep,
    ensures
        tokens(s + seq![sep] + t, sep) == tokens(s, sep).push(t),
    decreases t.len(),
{
    let u = s + seq![sep] + t;
    if t.len() == 0 {
        assert(u.drop_last() =~= s);
        assert(u =~= s + seq![sep]);
        assert(t =~= Seq::<char>::empty());
    } else {
        let d = t.drop_last();
        assert forall|k: int| 0 <= k < d.len() implies d[k] != sep by {
            assert(d[k] == t[k]);
        }
        assert(t[t.len() - 1] != sep);
        assert(u.last() == t.last());
        assert(d.push(t.last()) =~= t);
        lemma_tokens_append(s, d, sep);
        assert(u.drop_last() =~= s + seq![sep] + t.drop_last());
        let p = tokens(s, sep);
        assert(p.push(t.drop_last()).update(p.len() as int, t.drop_last().push(t.last())) =~= p.push(t));
    }
}

/// The written form of an arch-os key reads back as that key.
pub proof fn lemma_arch_os_round_trip(a: ArchOs)
    ensures
        parse_arch_os(arch_os_text(a)) == Some(a),
{
    let an = arch_name(a.arch);
    let on = os_name(a.os);
    assert(forall|k: int| 0 <= k < an.len() ==> an[k] != '-');
    assert(forall|k: int| 0 <= k < on.len() ==> on[k] != '-');
    lemma_tokens_single(an, '-');
    lemma_tokens_append(an, on, '-');
    let t = arch_os_text(a);
    assert(t =~= an + seq!['-'] + on);
    assert(tokens(t, '-') =~= seq![an, on]);
    assert(t.len() > 3);
    assert(t != arch_name(Arch::Any));
    assert(on != seq!['u', 'n', 'k', 'n', 'o', 'w', 'n']) by {
        if on.len() == 7 {
            assert(on[0] != 'u');
        }
    }
    assert(arch_named(an) == Some(a.arch)) by {
        reveal_with_fuel(arch_named, 1);
        match a.arch {
            Arch::Any => {},
            Arch::X86_64 => { assert(an != arch_name(Arch::Any)); },
            Arch::X86 => { assert(an != arch_name(Arch::Any)); assert(an != arch_name(Arch::X86_64)); },
            Arch::Aarch64 => {
                assert(an != arch_name(Arch::Any));
                assert(an != arch_name(Arch::X86_64));
                assert(an != arch_name(Arch::X86));
            },
        }
    }
    assert(os_named(on) == Some(a.os)) by {
        match a.os {
            Os::Any => {},
            Os::Linux => { assert(on != os_name(Os::Any)); },
            Os::MacOs => { assert(on != os_name(Os::Any)); assert(on != os_name(Os::Linux)); },
            Os::Windows => {
                assert(on != os_name(Os::Any));
                assert(on != os_name(Os::Linux));
                assert(on != os_name(Os::MacOs));
            },
        }
    }
}

/// Writing a descriptor and reading the result gives an equal descriptor; reading succeeds
/// whenever every version of the descriptor is one semver reads back.
pub proof fn lemma_round_trip(p: Package, raw: RawPackage, q: Package)
    requires
        written_from(raw, p),
        read_from(q, raw),
    ensures
        same_descriptor(p, q),
{
    assert forall|i: int| 0 <= i < p.releases@.len() implies
        version_text((#[trigger] p.releases@[i]).0) == version_text(q.releases@[i].0) && p.releases@[i].1@ == q.releases@[i].1@ by {
        let (r, a, b) = (raw.releases@[i].1@, p.releases@[i].1@, q.releases@[i].1@);
        assert forall|j: int| 0 <= j < a.len() implies a[j] == b[j] by {
            lemma_arch_os_round_trip(a[j].0);
            assert(r[j].0@ == arch_os_text(a[j].0));
            assert(parse_arch_os(r[j].0@) == Some(b[j].0));
        }
        assert(a =~= b);
    }
    assert forall|i: int| 0 <= i < p.installs@.len() implies
        version_text((#[trigger] p.installs@[i]).0) == version_text(q.installs@[i].0) && p.installs@[i].1@ == q.installs@[i].1@ by {
        let (r, a, b) = (raw.installs@[i].1@, p.installs@[i].1@, q.installs@[i].1@);
        assert forall|j: int| 0 <= j < a.len() implies a[j] == b[j] by {
            lemma_arch_os_round_trip(a[j].0);
            assert(r[j].0@ == arch_os_text(a[j].0));
            assert(parse_arch_os(r[j].0@) == Some(b[j].0));
        }
        assert(a =~= b);
    }
}

/// What writing gives is readable when semver reads back every version of the descriptor.
pub proof fn lemma_written_is_readable(raw: RawPackage, p: Package)
    requires
        written_from(raw, p),
        forall|i: int| 0 <= i < p.releases@.len() ==> semver_accepts_version(version_text(#[trigger] p.releases@[i].0)),
        forall|i: int| 0 <= i < p.installs@.len() ==> semver_accepts_version(version_text(#[trigger] p.installs@[i].0)),
    ensures
        readable(raw),
{
    assert forall|i: int, j: int| 0 <= i < raw.releases@.len() && 0 <= j < raw.releases@[i].1@.len()
        implies semver_accepts_version(raw.releases@[i].0@) && parse_arch_os((#[trigger] raw.releases@[i].1@[j]).0@) is Some by {
        assert(semver_accepts_version(version_text(p.releases@[i].0)));
        lemma_arch_os_round_trip(p.releases@[i].1@[j].0);
    }
    assert forall|i: int, j: int| 0 <= i < raw.installs@.len() && 0 <= j < raw.installs@[i].1@.len()
        implies semver_accepts_version(raw.installs@[i].0@) && parse_arch_os((#[trigger] raw.installs@[i].1@[j]).0@) is Some by {
        assert(semver_accepts_version(version_text(p.installs@[i].0)));
        lemma_arch_os_round_trip(p.installs@[i].1@[j].0);
    }
    assert forall|i: int| 0 <= i < raw.releases@.len() implies semver_accepts_version((#[trigger] raw.releases@[i]).0@) by {
        assert(semver_accepts_version(version_text(p.releases@[i].0)));
    }
    assert forall|i: int| 0 <= i < raw.installs@.len() implies semver_accepts_version((#[trigger] raw.installs@[i]).0@) by {
        assert(semver_accepts_version(version_text(p.installs@[i].0)));
    }
}

} // verus!
