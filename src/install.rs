//! The install engine's decisions: reading `NAME[@REQ]`, resolving what to install for a
//! host, whether an installed version stands in the way, and what install and uninstall do
//! to the prefix and the database.
use vstd::prelude::*;
use crate::arch_os::ArchOs;
use crate::db::{RecordView, has_package, names_unique, owned_files, drop_package};
use crate::error::ErrorKind;
use crate::package::{Asset, Install, Package, is_best_match, is_first_best_match, is_first_install_choice, is_first_written, install_resolves, first_rung};
use crate::text::{chars_of, string_from, slice};
use crate::version::{Version, VersionReq, satisfies, semver_accepts_req, version_key, version_lt};

verus! {

/// A package to install and the requirement its version must meet.
#[derive(Debug)]
pub struct InstallRequest {
    pub name: String,
    pub version: VersionReq,
}

impl InstallRequest {
    pub fn new(package_name: &str, version: VersionReq) -> (r: InstallRequest)
        ensures
            r.name@ == package_name@,
            r.version@ == version@,
    {
        InstallRequest { name: package_name.to_owned(), version }
    }
}

/// `i` is the first `@` of `s`.
pub open spec fn first_at(s: Seq<char>, i: int) -> bool {
    0 <= i < s.len() && s[i] == '@' && forall|k: int| 0 <= k < i ==> s[k] != '@'
}

/// Reads `NAME` (any version) or `NAME@REQ`.
pub fn parse_package_name_arg(arg: &str) -> (r: Result<InstallRequest, ErrorKind>)
    ensures
        (forall|k: int| 0 <= k < arg@.len() ==> arg@[k] != '@') ==> (r matches Ok(q) && q.name@ == arg@ && q.version@ == seq!['*']),
        forall|i: int| first_at(arg@, i) ==> match r {
            Ok(q) => q.name@ == arg@.subrange(0, i) && q.version@ == arg@.subrange(i + 1, arg@.len() as int),
            Err(e) => e == ErrorKind::NoMatchingVersion && !semver_accepts_req(arg@.subrange(i + 1, arg@.len() as int)),
        },
        r is Ok <==> ((forall|k: int| 0 <= k < arg@.len() ==> arg@[k] != '@')
            || exists|i: int| first_at(arg@, i) && semver_accepts_req(arg@.subrange(i + 1, arg@.len() as int))),
{
    let a = chars_of(arg);
    let mut i: usize = 0;
    while i < a.len()
        invariant
            i <= a@.len(),
            a@ == arg@,
            forall|k: int| 0 <= k < i ==> a@[k] != '@',
        decreases a@.len() - i,
    {
        if a[i] == '@' {
            assert(first_at(arg@, i as int));
            let name = string_from(&slice(&a, 0, i));
            let rest = string_from(&slice(&a, i + 1, a.len()));
            let req = VersionReq::parse(rest.as_str());
            proof {
                assert forall|j: int| first_at(arg@, j) implies j == i by {
                    if j < i { assert(arg@[j] != '@'); }
                    if j > i { assert(arg@[i as int] != '@'); }
                }
            }
            return match req {
                Ok(q) => Ok(InstallRequest::new(name.as_str(), q)),
                Err(e) => Err(e),
            };
        }
        i += 1;
    }
    assert forall|j: int| !first_at(arg@, j) by {}
    Ok(InstallRequest::new(arg, VersionReq::star()))
}

/// What an install resolves to: the version, its asset and its install spec.
pub struct Resolution<'a> {
    pub version: &'a Version,
    pub asset: &'a Asset,
    pub install: &'a Install,
}

/// The first best match is unique.
proof fn lemma_first_best_unique<T>(releases: Seq<(Version, T)>, req: Seq<char>, i: int, k: int)
    requires
        is_first_best_match(releases, req, i),
        is_first_best_match(releases, req, k),
    ensures
        i == k,
{
}

/// Resolves `request` for host `arch_os`: the greatest version meeting it, then its asset
/// and its install spec through the fallback ladders. Each missing step is its own error:
/// `NoMatchingVersion` when no release meets the requirement, `NoAssetForHost` when the
/// chosen release has no asset for the host, `NoInstallSpec` when no install spec applies.
pub fn resolve<'a>(package: &'a Package, request: &VersionReq, arch_os: &ArchOs) -> (r: Result<Resolution<'a>, ErrorKind>)
    ensures
        (forall|i: int| 0 <= i < package.releases@.len() ==> !satisfies(request@, #[trigger] package.releases@[i].0))
            <==> r == Err::<Resolution<'a>, ErrorKind>(ErrorKind::NoMatchingVersion),
        r == Err::<Resolution<'a>, ErrorKind>(ErrorKind::NoAssetForHost) <==> exists|i: int|
            is_first_best_match(package.releases@, request@, i) && first_rung(package.releases@[i].1@, *arch_os) is None,
        r == Err::<Resolution<'a>, ErrorKind>(ErrorKind::NoInstallSpec) <==> exists|i: int|
            is_first_best_match(package.releases@, request@, i) && first_rung(package.releases@[i].1@, *arch_os) is Some
                && !install_resolves(package.installs@, package.releases@[i].0, *arch_os),
        r is Ok <==> exists|i: int| is_first_best_match(package.releases@, request@, i)
            && first_rung(package.releases@[i].1@, *arch_os) is Some
            && install_resolves(package.installs@, package.releases@[i].0, *arch_os),
        r matches Ok(x) ==> exists|i: int| #[trigger] is_first_best_match(package.releases@, request@, i)
            && *x.version == package.releases@[i].0
            && (exists|j: int| 0 <= j < package.releases@[i].1@.len()
                && Some(package.releases@[i].1@[j].0) == first_rung(package.releases@[i].1@, *arch_os)
                && *x.asset == (#[trigger] package.releases@[i].1@[j]).1)
            && (exists|u: int, m: int| is_first_install_choice(package.installs@, package.releases@[i].0, u)
                && 0 <= m < package.installs@[u].1@.len()
                && Some(package.installs@[u].1@[m].0) == first_rung(package.installs@[u].1@, *arch_os)
                && *x.install == (#[trigger] package.installs@[u].1@[m]).1),
        r matches Err(e) ==> (e == ErrorKind::NoMatchingVersion || e == ErrorKind::NoAssetForHost || e == ErrorKind::NoInstallSpec),
{
    let version = match package.get_version_matching(request) {
        Some(v) => v,
        None => {
            proof {
                assert forall|i: int| !is_first_best_match(package.releases@, request@, i) by {
                    if 0 <= i < package.releases@.len() {
                        assert(!satisfies(request@, package.releases@[i].0));
                    }
                }
            }
            return Err(ErrorKind::NoMatchingVersion);
        },
    };
    let ghost i = choose|i: int| is_first_best_match(package.releases@, request@, i) && *version == package.releases@[i].0;
    proof {
        let rel = package.releases@;
        assert forall|k: int| 0 <= k < i implies (#[trigger] rel[k].0)@ != version@ by {
            if rel[k].0@ == version@ {
                assert(version_key(rel[k].0) == version_key(rel[i].0));
                assert(satisfies(request@, rel[k].0));
                assert forall|j: int| 0 <= j < rel.len() && satisfies(request@, #[trigger] rel[j].0)
                    implies !version_lt(rel[k].0, rel[j].0) by {
                    assert(!version_lt(rel[i].0, rel[j].0));
                }
                assert(is_best_match(rel, request@, k));
            }
        }
        assert(is_first_written(rel, version@, i));
        assert forall|k: int| is_first_best_match(rel, request@, k) implies k == i by {
            lemma_first_best_unique(rel, request@, i, k);
        }
        assert(satisfies(request@, rel[i].0));
    }
    let asset = match package.get_asset(version, arch_os) {
        Some(a) => a,
        None => {
            return Err(ErrorKind::NoAssetForHost);
        },
    };
    let install = match package.get_install(version, arch_os) {
        Some(x) => x,
        None => {
            return Err(ErrorKind::NoInstallSpec);
        },
    };
    Ok(Resolution { version, asset, install })
}

/// One step of an install.
#[derive(Debug, PartialEq, Eq, Clone, Copy, Structural)]
pub enum InstallStep {
    /// Fetch the asset into the download cache.
    Download,
    /// Check the cached asset's digest against the descriptor.
    VerifyChecksum,
    /// Clear the scratch directory and unpack the asset into it.
    Unpack,
    /// Uninstall the installed version of the package.
    UninstallOld,
    /// Move the planned files from the scratch directory into the prefix.
    PlaceFiles,
    /// Copy the planned extra files from the package's directory into the prefix.
    PlaceExtraFiles,
    /// Record the package, its versions and its placed files in the database.
    Record,
    /// Remove the scratch directory.
    Clean,
}

/// The steps of an install, in order: download unless the asset is cached, verify, unpack,
/// then (only then) uninstall the old version if there is one, place files and extra files,
/// record, clean.
pub open spec fn install_steps(cached: bool, uninstall_first: bool, has_extra_files: bool) -> Seq<InstallStep> {
    (if cached { Seq::empty() } else { seq![InstallStep::Download] })
        + seq![InstallStep::VerifyChecksum, InstallStep::Unpack]
        + (if uninstall_first { seq![InstallStep::UninstallOld] } else { Seq::empty() })
        + seq![InstallStep::PlaceFiles]
        + (if has_extra_files { seq![InstallStep::PlaceExtraFiles] } else { Seq::empty() })
        + seq![InstallStep::Record, InstallStep::Clean]
}

/// The steps of an install.
pub fn plan_install(cached: bool, uninstall_first: bool, has_extra_files: bool) -> (r: Vec<InstallStep>)
    ensures
        r@ == install_steps(cached, uninstall_first, has_extra_files),
{
    let mut r: Vec<InstallStep> = Vec::new();
    if !cached {
        r.push(InstallStep::Download);
    }
    r.push(InstallStep::VerifyChecksum);
    r.push(InstallStep::Unpack);
    if uninstall_first {
        r.push(InstallStep::UninstallOld);
    }
    r.push(InstallStep::PlaceFiles);
    if has_extra_files {
        r.push(InstallStep::PlaceExtraFiles);
    }
    r.push(InstallStep::Record);
    r.push(InstallStep::Clean);
    assert(r@ =~= install_steps(cached, uninstall_first, has_extra_files));
    r
}

/// A failed step stops the install; a failed checksum check also deletes the cached asset,
/// so that the next attempt downloads it again.
pub fn deletes_cached_asset_on_failure(step: InstallStep) -> (r: bool)
    ensures
        r == (step == InstallStep::VerifyChecksum),
{
    step == InstallStep::VerifyChecksum
}

/// The old version is uninstalled only after the new asset has been verified and unpacked,
/// and the database is written only after every file has been placed, as the next-to-last
/// step: a failure before it leaves the database as it was, and a failed upgrade leaves the
/// working install in place.
pub proof fn lemma_install_step_order(cached: bool, uninstall_first: bool, has_extra_files: bool)
    ensures
        ({
            let s = install_steps(cached, uninstall_first, has_extra_files);
            &&& forall|i: int, j: int| 0 <= i < s.len() && 0 <= j < s.len() && s[j] == InstallStep::UninstallOld
                && (s[i] == InstallStep::VerifyChecksum || s[i] == InstallStep::Unpack) ==> i < j
            &&& forall|i: int, j: int| 0 <= i < s.len() && 0 <= j < s.len() && s[j] == InstallStep::Record
                && s[i] != InstallStep::Record && s[i] != InstallStep::Clean ==> i < j
            &&& forall|i: int, j: int| 0 <= i < s.len() && 0 <= j < s.len() && s[i] == InstallStep::VerifyChecksum
                && (s[j] == InstallStep::UninstallOld || s[j] == InstallStep::PlaceFiles
                    || s[j] == InstallStep::PlaceExtraFiles || s[j] == InstallStep::Record) ==> i < j
            &&& s[s.len() - 2] == InstallStep::Record
            &&& s.last() == InstallStep::Clean
            &&& (s.contains(InstallStep::UninstallOld) <==> uninstall_first)
            &&& (s.contains(InstallStep::Download) <==> !cached)
        }),
{
    let s = install_steps(cached, uninstall_first, has_extra_files);
    let d: int = if cached { 0 } else { 1 };
    let u: int = if uninstall_first { 1 } else { 0 };
    let x: int = if has_extra_files { 1 } else { 0 };
    assert(s.len() == d + 2 + u + 1 + x + 2);
    assert forall|k: int| 0 <= k < s.len() implies #[trigger] s[k] == (
        if k < d { InstallStep::Download }
        else if k == d { InstallStep::VerifyChecksum }
        else if k == d + 1 { InstallStep::Unpack }
        else if k < d + 2 + u { InstallStep::UninstallOld }
        else if k == d + 2 + u { InstallStep::PlaceFiles }
        else if k < d + 3 + u + x { InstallStep::PlaceExtraFiles }
        else if k == d + 3 + u + x { InstallStep::Record }
        else { InstallStep::Clean }) by {}
    if uninstall_first {
        assert(s[d + 2] == InstallStep::UninstallOld);
    }
    if !cached {
        assert(s[0] == InstallStep::Download);
    }
}

/// Whether an install of `version` may go ahead given the installed version: the same
/// version without `reinstall` is `AlreadyInstalled`; otherwise the answer says whether the
/// installed package is to be uninstalled first.
pub fn check_installed(installed: &Option<Version>, version: &Version, reinstall: bool) -> (r: Result<bool, ErrorKind>)
    ensures
        match installed {
            Some(v) => if v@ == version@ && !reinstall {
                r == Err::<bool, ErrorKind>(ErrorKind::AlreadyInstalled)
            } else {
                r == Ok::<bool, ErrorKind>(true)
            },
            None => r == Ok::<bool, ErrorKind>(false),
        },
{
    match installed {
        Some(v) => {
            if v.same_as(version) && !reinstall {
                Err(ErrorKind::AlreadyInstalled)
            } else {
                Ok(true)
            }
        },
        None => Ok(false),
    }
}

/// A model of a home: the files present in the install prefix, and the database rows. The
/// database part is what `Database` holds: `Database::add_package` appends the row that
/// `after_install` appends, and `Database::remove_package` leaves `drop_package` of the rows,
/// as `after_uninstall` does. The prefix part is what the program does on disk: it moves in
/// the destinations of `plan_placements` (which become the row's files), and removes the
/// paths of `plan_uninstall`, one per file the row owns. The laws below are proved of this
/// model.
pub struct HomeView {
    pub prefix: Set<Seq<char>>,
    pub db: Seq<RecordView>,
}

/// What an install does once its files are placed: they join the prefix, and the package's
/// row (which owns them) joins the database.
pub open spec fn after_install(h: HomeView, rec: RecordView) -> HomeView {
    HomeView { prefix: h.prefix + rec.files.to_set(), db: h.db.push(rec) }
}

/// What an uninstall does: the files the package owns leave the prefix, and its row leaves
/// the database.
pub open spec fn after_uninstall(h: HomeView, name: Seq<char>) -> HomeView {
    HomeView { prefix: h.prefix - owned_files(h.db, name), db: drop_package(h.db, name) }
}

/// The files owned by a package that was just recorded are those of its row.
proof fn lemma_owned_after_push(db: Seq<RecordView>, rec: RecordView)
    requires
        !has_package(db, rec.name),
    ensures
        owned_files(db.push(rec), rec.name) == rec.files.to_set(),
{
    let d = db.push(rec);
    assert forall|f: Seq<char>| owned_files(d, rec.name).contains(f) <==> rec.files.to_set().contains(f) by {
        if owned_files(d, rec.name).contains(f) {
            let (i, k) = choose|i: int, k: int| 0 <= i < d.len() && d[i].name == rec.name
                && 0 <= k < d[i].files.len() && d[i].files[k] == f;
            if i < db.len() {
                assert(db[i].name == rec.name);
            }
            assert(rec.files.contains(f));
        }
        if rec.files.to_set().contains(f) {
            let k = choose|k: int| 0 <= k < rec.files.len() && rec.files[k] == f;
            assert(d[db.len() as int].files[k] == f);
        }
    }
    assert(owned_files(d, rec.name) =~= rec.files.to_set());
}

/// A package dropped from the database owns nothing there any more.
proof fn lemma_dropped_owns_nothing(db: Seq<RecordView>, name: Seq<char>)
    requires
        names_unique(db),
    ensures
        !has_package(drop_package(db, name), name),
        owned_files(drop_package(db, name), name) == Set::<Seq<char>>::empty(),
{
    let d = drop_package(db, name);
    if has_package(db, name) {
        let c = choose|i: int| 0 <= i < db.len() && db[i].name == name;
        assert forall|j: int| 0 <= j < d.len() implies d[j].name != name by {
            if j < c {
                assert(d[j] == db[j]);
            } else {
                assert(d[j] == db[j + 1]);
            }
        }
    }
    assert(owned_files(d, name) =~= Set::<Seq<char>>::empty());
}

/// After an install every file the database records for the package is in the prefix;
/// after its uninstall none is.
pub proof fn lemma_install_places_uninstall_removes(h: HomeView, rec: RecordView)
    requires
        names_unique(h.db),
        !has_package(h.db, rec.name),
    ensures
        forall|f: Seq<char>| owned_files(after_install(h, rec).db, rec.name).contains(f)
            ==> after_install(h, rec).prefix.contains(f),
        forall|f: Seq<char>| owned_files(after_install(h, rec).db, rec.name).contains(f)
            ==> !after_uninstall(after_install(h, rec), rec.name).prefix.contains(f),
{
    lemma_owned_after_push(h.db, rec);
}

/// Install then uninstall keeps every file that was in the prefix before, when the package
/// placed none of them.
pub proof fn lemma_ownership_boundary(h: HomeView, rec: RecordView)
    requires
        names_unique(h.db),
        !has_package(h.db, rec.name),
        forall|k: int| 0 <= k < rec.files.len() ==> !h.prefix.contains(#[trigger] rec.files[k]),
    ensures
        forall|f: Seq<char>| h.prefix.contains(f) ==> after_uninstall(after_install(h, rec), rec.name).prefix.contains(f),
{
    lemma_owned_after_push(h.db, rec);
}

/// Reinstalling the same version with the same files leaves the home as the first install
/// left it: the same files in the prefix, the same rows in the database.
pub proof fn lemma_reinstall_unchanged(h: HomeView, rec: RecordView)
    requires
        names_unique(h.db),
        !has_package(h.db, rec.name),
    ensures
        after_install(after_uninstall(after_install(h, rec), rec.name), rec) == after_install(h, rec),
{
    let h1 = after_install(h, rec);
    lemma_owned_after_push(h.db, rec);
    let c = choose|i: int| 0 <= i < h1.db.len() && h1.db[i].name == rec.name;
    assert(h1.db[h.db.len() as int].name == rec.name);
    if c < h.db.len() {
        assert(h.db[c].name == rec.name);
    }
    assert(drop_package(h1.db, rec.name) =~= h.db);
    let h2 = after_install(after_uninstall(h1, rec.name), rec);
    assert(h2.prefix =~= h1.prefix);
    assert(h2.db =~= h1.db);
}

/// Installing `v2` over an installed `v1` of the same package (the engine uninstalls first):
/// the database then holds the package once, at `v2`, owning exactly `v2`'s files, and no
/// file that only `v1` placed is left in the prefix.
pub proof fn lemma_version_change(h: HomeView, r1: RecordView, r2: RecordView)
    requires
        names_unique(h.db),
        !has_package(h.db, r1.name),
        r2.name == r1.name,
    ensures
        ({
            let h2 = after_install(after_uninstall(after_install(h, r1), r1.name), r2);
            &&& names_unique(h2.db)
            &&& h2.db.last() == r2
            &&& owned_files(h2.db, r1.name) == r2.files.to_set()
            &&& forall|f: Seq<char>| r1.files.contains(f) && !r2.files.contains(f) ==> !h2.prefix.contains(f)
        }),
{
    let h1 = after_install(h, r1);
    lemma_owned_after_push(h.db, r1);
    assert(names_unique(h1.db)) by {
        assert forall|i: int, j: int| 0 <= i < h1.db.len() && 0 <= j < h1.db.len() && h1.db[i].name == h1.db[j].name implies i == j by {
            if i < h.db.len() && j == h.db.len() {
                assert(h.db[i].name == r1.name);
            }
            if j < h.db.len() && i == h.db.len() {
                assert(h.db[j].name == r1.name);
            }
        }
    }
    let hu = after_uninstall(h1, r1.name);
    lemma_dropped_owns_nothing(h1.db, r1.name);
    assert(names_unique(hu.db)) by {
        let c = choose|i: int| 0 <= i < h1.db.len() && h1.db[i].name == r1.name;
        assert(h1.db[h.db.len() as int].name == r1.name);
        assert forall|i: int, j: int| 0 <= i < hu.db.len() && 0 <= j < hu.db.len() && hu.db[i].name == hu.db[j].name implies i == j by {
            let ii = if i < c { i } else { i + 1 };
            let jj = if j < c { j } else { j + 1 };
            assert(hu.db[i] == h1.db[ii]);
            assert(hu.db[j] == h1.db[jj]);
        }
    }
    let h2 = after_install(hu, r2);
    lemma_owned_after_push(hu.db, r2);
    assert(names_unique(h2.db)) by {
        assert forall|i: int, j: int| 0 <= i < h2.db.len() && 0 <= j < h2.db.len() && h2.db[i].name == h2.db[j].name implies i == j by {
            if i < hu.db.len() && j == hu.db.len() {
                assert(hu.db[i].name == r2.name);
            }
            if j < hu.db.len() && i == hu.db.len() {
                assert(hu.db[j].name == r2.name);
            }
        }
    }
    assert forall|f: Seq<char>| r1.files.contains(f) && !r2.files.contains(f) implies !h2.prefix.contains(f) by {
        assert(r1.files.to_set().contains(f));
        assert(owned_files(h1.db, r1.name).contains(f));
    }
}

} // verus!
