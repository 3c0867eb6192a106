//! Package descriptors: releases and install specs keyed by version and arch-os, and the
//! rules that pick a version, an asset and an install spec for a host.
use vstd::prelude::*;
use crate::arch_os::{Arch, ArchOs, Os};
use crate::version::{Version, VersionReq, VersionView, satisfies, version_lt, version_le, version_key, lemma_version_order, lemma_version_equivalent};

verus! {

/// A downloadable file and the lowercase hex SHA-256 digest of its content.
#[derive(Debug, Clone, PartialEq, Eq)]
pub struct Asset {
    pub url: String,
    pub sha256: String,
}

/// How to install a release: components to strip, files to place (source to destination),
/// extra files taken from the package's own directory, and test commands.
#[derive(Debug, Clone, PartialEq, Eq)]
pub struct Install {
    pub strip: u32,
    pub files: Vec<(String, String)>,
    pub extra_files: Vec<(String, String)>,
    pub tests: Vec<String>,
}

/// The assets of one version, by arch-os.
pub type Release = Vec<(ArchOs, Asset)>;

/// Where auxiliary tooling looks for new releases; the install core carries it unread.
#[derive(Debug, Clone, PartialEq, Eq)]
pub enum FetcherConfig {
    Auto,
    Forgejo { arch: Option<Arch>, os: Option<Os>, base_url: String, name_pattern: Option<String> },
    GitHub { arch: Option<Arch>, os: Option<Os>, name_pattern: Option<String> },
    GitLab { arch: Option<Arch>, os: Option<Os>, name_pattern: Option<String> },
    Script,
    Off,
}

/// A package descriptor.
#[derive(Debug)]
pub struct Package {
    pub name: String,
    pub description: String,
    pub homepage: String,
    pub repository: String,
    pub releases: Vec<(Version, Release)>,
    pub installs: Vec<(Version, Vec<(ArchOs, Install)>)>,
    pub package_dir: String,
    pub fetcher: FetcherConfig,
}

/// Some entry of `entries` has key `key`.
pub open spec fn keyed<T>(entries: Seq<(ArchOs, T)>, key: ArchOs) -> bool {
    exists|i: int| 0 <= i < entries.len() && entries[i].0 == key
}

/// The `k`-th arch-os key tried for host `a`: `(arch, os)`, `(any, os)`, `(arch, any)`,
/// then `(any, any)`.
pub open spec fn rung(a: ArchOs, k: int) -> ArchOs {
    if k == 0 {
        a
    } else if k == 1 {
        ArchOs { arch: Arch::Any, os: a.os }
    } else if k == 2 {
        ArchOs { arch: a.arch, os: Os::Any }
    } else {
        ArchOs { arch: Arch::Any, os: Os::Any }
    }
}

/// The first key of the ladder for `a` that `entries` holds.
pub open spec fn first_rung<T>(entries: Seq<(ArchOs, T)>, a: ArchOs) -> Option<ArchOs> {
    if keyed(entries, rung(a, 0)) {
        Some(rung(a, 0))
    } else if keyed(entries, rung(a, 1)) {
        Some(rung(a, 1))
    } else if keyed(entries, rung(a, 2)) {
        Some(rung(a, 2))
    } else if keyed(entries, rung(a, 3)) {
        Some(rung(a, 3))
    } else {
        None
    }
}

/// Adding an entry to an asset or install map never takes away a resolution that succeeded
/// before: whatever key the new entry has, the ladder still finds an entry for the host.
pub proof fn lemma_ladder_monotonic<T>(entries: Seq<(ArchOs, T)>, extra: (ArchOs, T), host: ArchOs)
    requires
        first_rung(entries, host) is Some,
    ensures
        first_rung(entries.push(extra), host) is Some,
{
    let k = first_rung(entries, host)->0;
    let i = choose|i: int| 0 <= i < entries.len() && entries[i].0 == k;
    assert(entries.push(extra)[i].0 == k);
}

/// Index `i` of `installs` holds the greatest version at or below `wanted`.
pub open spec fn is_install_choice<T>(installs: Seq<(Version, T)>, wanted: Version, i: int) -> bool {
    &&& 0 <= i < installs.len()
    &&& version_le(installs[i].0, wanted)
    &&& forall|j: int| 0 <= j < installs.len() && version_le(#[trigger] installs[j].0, wanted)
        ==> !version_lt(installs[i].0, installs[j].0)
}

/// Index `i` of `releases` holds the greatest version that meets `req`.
pub open spec fn is_best_match<T>(releases: Seq<(Version, T)>, req: Seq<char>, i: int) -> bool {
    &&& 0 <= i < releases.len()
    &&& satisfies(req, releases[i].0)
    &&& forall|j: int| 0 <= j < releases.len() && satisfies(req, #[trigger] releases[j].0)
        ==> !version_lt(releases[i].0, releases[j].0)
}

/// Index `i` is the first of the greatest versions meeting `req`: the release that
/// resolution picks.
pub open spec fn is_first_best_match<T>(releases: Seq<(Version, T)>, req: Seq<char>, i: int) -> bool {
    &&& is_best_match(releases, req, i)
    &&& forall|k: int| 0 <= k < i ==> !is_best_match(releases, req, k)
}

/// Index `i` is the first of the greatest installs versions at or below `wanted`: the
/// installs entry that applies.
pub open spec fn is_first_install_choice<T>(installs: Seq<(Version, T)>, wanted: Version, i: int) -> bool {
    &&& is_install_choice(installs, wanted, i)
    &&& forall|k: int| 0 <= k < i ==> !is_install_choice(installs, wanted, k)
}

/// Index `i` is the first release written like `v`.
pub open spec fn is_first_written<T>(releases: Seq<(Version, T)>, v: VersionView, i: int) -> bool {
    &&& 0 <= i < releases.len()
    &&& releases[i].0@ == v
    &&& forall|k: int| 0 <= k < i ==> (#[trigger] releases[k].0)@ != v
}

/// An install spec applies to `wanted` on `host`.
pub open spec fn install_resolves<T>(installs: Seq<(Version, Vec<(ArchOs, T)>)>, wanted: Version, host: ArchOs) -> bool {
    exists|u: int| is_first_install_choice(installs, wanted, u) && first_rung(installs[u].1@, host) is Some
}

/// Adding an arch-os entry to the map of an existing installs version never takes away an
/// install spec that applied before: which installs version applies depends on the versions
/// alone, and within its map the ladder still finds an entry.
pub proof fn lemma_install_ladder_monotonic<T>(
    a: Seq<(Version, Vec<(ArchOs, T)>)>,
    b: Seq<(Version, Vec<(ArchOs, T)>)>,
    w: int,
    extra: (ArchOs, T),
    wanted: Version,
    host: ArchOs,
)
    requires
        install_resolves(a, wanted, host),
        0 <= w < a.len(),
        b.len() == a.len(),
        forall|k: int| 0 <= k < a.len() ==> (#[trigger] b[k]).0 == a[k].0,
        forall|k: int| 0 <= k < a.len() && k != w ==> (#[trigger] b[k]).1@ == a[k].1@,
        b[w].1@ == a[w].1@.push(extra),
    ensures
        install_resolves(b, wanted, host),
{
    let u = choose|u: int| is_first_install_choice(a, wanted, u) && first_rung(a[u].1@, host) is Some;
    assert forall|k: int| 0 <= k < a.len() implies
        is_install_choice(a, wanted, k) == is_install_choice(b, wanted, k) by {
        assert(b[k].0 == a[k].0);
        if is_install_choice(a, wanted, k) {
            assert forall|j: int| 0 <= j < b.len() && version_le(#[trigger] b[j].0, wanted)
                implies !version_lt(b[k].0, b[j].0) by {
                assert(b[j].0 == a[j].0);
            }
        }
        if is_install_choice(b, wanted, k) {
            assert forall|j: int| 0 <= j < a.len() && version_le(#[trigger] a[j].0, wanted)
                implies !version_lt(a[k].0, a[j].0) by {
                assert(b[j].0 == a[j].0);
            }
        }
    }
    assert(is_install_choice(b, wanted, u));
    assert forall|k: int| 0 <= k < u implies !is_install_choice(b, wanted, k) by {
        assert(!is_install_choice(a, wanted, k));
    }
    assert(is_first_install_choice(b, wanted, u));
    if u == w {
        lemma_ladder_monotonic(a[w].1@, extra, host);
    } else {
        assert(b[u].1@ == a[u].1@);
    }
}

/// The index of the entry keyed `key`, if any.
fn find_key<T>(entries: &Vec<(ArchOs, T)>, key: ArchOs) -> (r: Option<usize>)
    ensures
        match r {
            Some(i) => i < entries@.len() && entries@[i as int].0 == key,
            None => !keyed(entries@, key),
        },
{
    let mut i: usize = 0;
    while i < entries.len()
        invariant
            i <= entries@.len(),
            forall|k: int| 0 <= k < i ==> entries@[k].0 != key,
        decreases entries@.len() - i,
    {
        if entries[i].0 == key {
            return Some(i);
        }
        i += 1;
    }
    None
}

/// The entry for host `a`, following the fallback ladder.
fn lookup_ladder<'a, T>(entries: &'a Vec<(ArchOs, T)>, a: &ArchOs) -> (r: Option<&'a T>)
    ensures
        match first_rung(entries@, *a) {
            Some(k) => r matches Some(x) && exists|i: int| 0 <= i < entries@.len() && entries@[i].0 == k && *x == entries@[i].1,
            None => r is None,
        },
{
    let mut k: usize = 0;
    while k < 4
        invariant
            k <= 4,
            forall|m: int| 0 <= m < k ==> !keyed(entries@, rung(*a, m)),
        decreases 4 - k,
    {
        let key = if k == 0 {
            *a
        } else if k == 1 {
            a.with_any_arch()
        } else if k == 2 {
            a.with_any_os()
        } else {
            ArchOs::any()
        };
        assert(key == rung(*a, k as int));
        match find_key(entries, key) {
            Some(i) => {
                proof {
                    assert(keyed(entries@, rung(*a, k as int)));
                    if k >= 1 {
                        assert(!keyed(entries@, rung(*a, 0)));
                    }
                    if k >= 2 {
                        assert(!keyed(entries@, rung(*a, 1)));
                    }
                    if k >= 3 {
                        assert(!keyed(entries@, rung(*a, 2)));
                    }
                }
                let x = &entries[i].1;
                return Some(x);
            },
            None => {},
        }
        k += 1;
    }
    assert(!keyed(entries@, rung(*a, 0)) && !keyed(entries@, rung(*a, 1)) && !keyed(entries@, rung(*a, 2)) && !keyed(entries@, rung(*a, 3)));
    None
}

impl Package {
    /// The greatest release version that meets `requested_version` (the first such entry
    /// when several rank alike).
    pub fn get_version_matching(&self, requested_version: &VersionReq) -> (r: Option<&Version>)
        ensures
            match r {
                Some(v) => exists|i: int| is_first_best_match(self.releases@, requested_version@, i) && *v == self.releases@[i].0,
                None => forall|i: int| 0 <= i < self.releases@.len() ==> !satisfies(requested_version@, #[trigger] self.releases@[i].0),
            },
    {
        let ghost req = requested_version@;
        let mut best: Option<usize> = None;
        let mut i: usize = 0;
        while i < self.releases.len()
            invariant
                i <= self.releases@.len(),
                req == requested_version@,
                match best {
                    Some(b) => b < i && satisfies(req, self.releases@[b as int].0)
                        && (forall|j: int| 0 <= j < i && satisfies(req, #[trigger] self.releases@[j].0)
                            ==> !version_lt(self.releases@[b as int].0, self.releases@[j].0))
                        && (forall|k: int| 0 <= k < b && satisfies(req, #[trigger] self.releases@[k].0)
                            ==> version_lt(self.releases@[k].0, self.releases@[b as int].0)),
                    None => forall|j: int| 0 <= j < i ==> !satisfies(req, #[trigger] self.releases@[j].0),
                },
            decreases self.releases@.len() - i,
        {
            let v = &self.releases[i].0;
            if requested_version.matches(v) {
                match best {
                    None => {
                        proof { lemma_version_order(*v, *v, *v); }
                        best = Some(i);
                    },
                    Some(b) => {
                        if self.releases[b].0.is_less(v) {
                            proof {
                                let rb = self.releases@[b as int].0;
                                assert forall|k: int| 0 <= k < i && satisfies(req, #[trigger] self.releases@[k].0)
                                    implies version_lt(self.releases@[k].0, *v) by {
                                    let rk = self.releases@[k].0;
                                    if k == b {
                                    } else if version_lt(rk, rb) {
                                        lemma_version_order(rk, rb, *v);
                                    } else {
                                        lemma_version_equivalent(rb, rk, *v);
                                    }
                                }
                                assert forall|j: int| 0 <= j <= i && satisfies(req, #[trigger] self.releases@[j].0)
                                    implies !version_lt(*v, self.releases@[j].0) by {
                                    let rj = self.releases@[j].0;
                                    lemma_version_order(rj, *v, rj);
                                    lemma_version_order(*v, rj, *v);
                                }
                            }
                            best = Some(i);
                        }
                    },
                }
            }
            i += 1;
        }
        match best {
            Some(b) => {
                proof {
                    assert(is_best_match(self.releases@, req, b as int));
                    assert forall|k: int| 0 <= k < b implies !is_best_match(self.releases@, req, k) by {
                        if satisfies(req, self.releases@[k].0) {
                            assert(version_lt(self.releases@[k].0, self.releases@[b as int].0));
                            assert(satisfies(req, self.releases@[b as int].0));
                        }
                    }
                    assert(is_first_best_match(self.releases@, requested_version@, b as int));
                }
                let v = &self.releases[b].0;
                assert(*v == self.releases@[b as int].0);
                Some(v)
            },
            None => None,
        }
    }

    /// The greatest release version.
    pub fn get_latest_version(&self) -> (r: Option<&Version>)
        ensures
            match r {
                Some(v) => exists|i: int| 0 <= i < self.releases@.len() && *v == self.releases@[i].0
                    && forall|j: int| 0 <= j < self.releases@.len() ==> !version_lt(self.releases@[i].0, #[trigger] self.releases@[j].0),
                None => self.releases@.len() == 0,
            },
    {
        if self.releases.len() == 0 {
            return None;
        }
        let mut b: usize = 0;
        let mut i: usize = 1;
        proof { lemma_version_order(self.releases@[0].0, self.releases@[0].0, self.releases@[0].0); }
        while i < self.releases.len()
            invariant
                1 <= i <= self.releases@.len(),
                b < i,
                forall|j: int| 0 <= j < i ==> !version_lt(self.releases@[b as int].0, #[trigger] self.releases@[j].0),
            decreases self.releases@.len() - i,
        {
            if self.releases[b].0.is_less(&self.releases[i].0) {
                proof {
                    assert forall|j: int| 0 <= j <= i implies !version_lt(self.releases@[i as int].0, #[trigger] self.releases@[j].0) by {
                        lemma_version_order(self.releases@[b as int].0, self.releases@[i as int].0, self.releases@[j].0);
                    }
                }
                b = i;
            }
            i += 1;
        }
        Some(&self.releases[b].0)
    }

    /// The index of the release whose version is written like `version`.
    fn release_index(&self, version: &Version) -> (r: Option<usize>)
        ensures
            match r {
                Some(i) => is_first_written(self.releases@, version@, i as int),
                None => forall|i: int| 0 <= i < self.releases@.len() ==> (#[trigger] self.releases@[i].0)@ != version@,
            },
    {
        let mut i: usize = 0;
        while i < self.releases.len()
            invariant
                i <= self.releases@.len(),
                forall|k: int| 0 <= k < i ==> (#[trigger] self.releases@[k].0)@ != version@,
            decreases self.releases@.len() - i,
        {
            if self.releases[i].0.same_as(version) {
                return Some(i);
            }
            i += 1;
        }
        None
    }

    /// The asset of release `version` for host `arch_os`, trying `(arch, os)`, `(any, os)`,
    /// `(arch, any)` and `(any, any)` in turn. The first release written like `version` is the
    /// one consulted.
    pub fn get_asset(&self, version: &Version, arch_os: &ArchOs) -> (r: Option<&Asset>)
        ensures
            (forall|i: int| 0 <= i < self.releases@.len() ==> (#[trigger] self.releases@[i].0)@ != version@) ==> r is None,
            forall|i: int| #[trigger] is_first_written(self.releases@, version@, i) ==> match r {
                Some(x) => exists|j: int| 0 <= j < self.releases@[i].1@.len()
                    && Some(self.releases@[i].1@[j].0) == first_rung(self.releases@[i].1@, *arch_os)
                    && *x == (#[trigger] self.releases@[i].1@[j]).1,
                None => first_rung(self.releases@[i].1@, *arch_os) is None,
            },
    {
        match self.release_index(version) {
            None => None,
            Some(i) => {
                let r = lookup_ladder(&self.releases[i].1, arch_os);
                proof {
                    assert forall|k: int| #[trigger] is_first_written(self.releases@, version@, k) implies k == i by {
                        if k < i {
                            assert(self.releases@[k].0@ != version@);
                        } else if k > i {
                            assert(self.releases@[i as int].0@ != version@);
                        }
                    }
                }
                r
            },
        }
    }

    /// The package with the assets of release `version` replaced by `release`, or with that
    /// release added when it has none.
    pub fn replace_release(self, version: &Version, release: Release) -> (r: Package)
        ensures
            r.name == self.name && r.description == self.description && r.homepage == self.homepage,
            r.repository == self.repository && r.installs == self.installs,
            r.package_dir == self.package_dir && r.fetcher == self.fetcher,
            match self.release_index_spec(version@) {
                Some(i) => r.releases@ == self.releases@.update(i, (self.releases@[i].0, release)),
                None => r.releases@.len() == self.releases@.len() + 1
                    && r.releases@.drop_last() == self.releases@
                    && r.releases@.last().0@ == version@ && r.releases@.last().1 == release,
            },
    {
        let found = self.release_index(version);
        let Package { name, description, homepage, repository, mut releases, installs, package_dir, fetcher } = self;
        match found {
            Some(i) => {
                let old = releases.remove(i);
                releases.insert(i, (old.0, release));
            },
            None => {
                releases.push((version.copy(), release));
            },
        }
        Package { name, description, homepage, repository, releases, installs, package_dir, fetcher }
    }

    /// The index of the first release written like `v`, if any.
    pub open spec fn release_index_spec(&self, v: VersionView) -> Option<int> {
        if exists|i: int| 0 <= i < self.releases@.len() && (#[trigger] self.releases@[i].0)@ == v {
            Some(choose|i: int| 0 <= i < self.releases@.len() && (#[trigger] self.releases@[i].0)@ == v
                && forall|k: int| 0 <= k < i ==> (#[trigger] self.releases@[k].0)@ != v)
        } else {
            None
        }
    }

    /// The index of the first installs entry with the greatest version at or below `wanted`.
    fn install_index(&self, wanted: &Version) -> (r: Option<usize>)
        ensures
            match r {
                Some(i) => is_first_install_choice(self.installs@, *wanted, i as int),
                None => forall|j: int| 0 <= j < self.installs@.len() ==> !version_le(#[trigger] self.installs@[j].0, *wanted),
            },
    {
        let mut best: Option<usize> = None;
        let mut i: usize = 0;
        while i < self.installs.len()
            invariant
                i <= self.installs@.len(),
                match best {
                    Some(b) => b < i && version_le(self.installs@[b as int].0, *wanted)
                        && (forall|j: int| 0 <= j < i && version_le(#[trigger] self.installs@[j].0, *wanted)
                            ==> !version_lt(self.installs@[b as int].0, self.installs@[j].0))
                        && (forall|k: int| 0 <= k < b && version_le(#[trigger] self.installs@[k].0, *wanted)
                            ==> version_lt(self.installs@[k].0, self.installs@[b as int].0)),
                    None => forall|j: int| 0 <= j < i ==> !version_le(#[trigger] self.installs@[j].0, *wanted),
                },
            decreases self.installs@.len() - i,
        {
            let v = &self.installs[i].0;
            if !wanted.is_less(v) {
                match best {
                    None => {
                        proof { lemma_version_order(*v, *v, *v); }
                        best = Some(i);
                    },
                    Some(b) => {
                        if self.installs[b].0.is_less(v) {
                            proof {
                                let rb = self.installs@[b as int].0;
                                assert forall|k: int| 0 <= k < i && version_le(#[trigger] self.installs@[k].0, *wanted)
                                    implies version_lt(self.installs@[k].0, *v) by {
                                    let rk = self.installs@[k].0;
                                    if k == b {
                                    } else if version_lt(rk, rb) {
                                        lemma_version_order(rk, rb, *v);
                                    } else {
                                        lemma_version_equivalent(rb, rk, *v);
                                    }
                                }
                                assert forall|j: int| 0 <= j <= i && version_le(#[trigger] self.installs@[j].0, *wanted)
                                    implies !version_lt(*v, self.installs@[j].0) by {
                                    let rj = self.installs@[j].0;
                                    lemma_version_order(rj, *v, rj);
                                    lemma_version_order(*v, rj, *v);
                                }
                            }
                            best = Some(i);
                        }
                    },
                }
            }
            i += 1;
        }
        match best {
            Some(b) => {
                proof {
                    assert(is_install_choice(self.installs@, *wanted, b as int));
                    assert forall|k: int| 0 <= k < b implies !is_install_choice(self.installs@, *wanted, k) by {
                        if version_le(self.installs@[k].0, *wanted) {
                            assert(version_lt(self.installs@[k].0, self.installs@[b as int].0));
                            assert(version_le(self.installs@[b as int].0, *wanted));
                        }
                    }
                }
            },
            None => {},
        }
        best
    }

    /// The install spec for `wanted_version` on host `arch_os`: the installs entry with the
    /// greatest version at or below `wanted_version` applies (the first such entry when
    /// several rank alike), and within it the arch-os fallback ladder.
    pub fn get_install(&self, wanted_version: &Version, arch_os: &ArchOs) -> (r: Option<&Install>)
        ensures
            r is Some <==> install_resolves(self.installs@, *wanted_version, *arch_os),
            r matches Some(x) ==> exists|i: int, j: int| is_first_install_choice(self.installs@, *wanted_version, i)
                && 0 <= j < self.installs@[i].1@.len()
                && Some(self.installs@[i].1@[j].0) == first_rung(self.installs@[i].1@, *arch_os)
                && *x == (#[trigger] self.installs@[i].1@[j]).1,
    {
        match self.install_index(wanted_version) {
            None => {
                proof {
                    assert forall|u: int| !is_first_install_choice(self.installs@, *wanted_version, u) by {
                        if 0 <= u < self.installs@.len() {
                            assert(!version_le(self.installs@[u].0, *wanted_version));
                        }
                    }
                }
                None
            },
            Some(i) => {
                proof {
                    assert forall|u: int| #[trigger] is_first_install_choice(self.installs@, *wanted_version, u) implies u == i by {
                        if u < i {
                            assert(!is_install_choice(self.installs@, *wanted_version, u));
                        } else if u > i {
                            assert(!is_install_choice(self.installs@, *wanted_version, i as int));
                        }
                    }
                }
                lookup_ladder(&self.installs[i].1, arch_os)
            },
        }
    }
}

} // verus!
