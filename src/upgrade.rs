//! The upgrade planner: which installed packages have a newer version within their
//! requested requirement, and which are held back by it.
use vstd::prelude::*;
use crate::db::PackageInfo;
use crate::package::{Package, Release, is_best_match};
use crate::version::{Version, VersionReq, version_lt, lemma_version_equivalent};

verus! {

/// The best match for `req` among `releases` is newer than `installed`.
pub open spec fn newer_available(releases: Seq<(Version, Release)>, installed: Version, req: Seq<char>) -> bool {
    exists|i: int| is_best_match(releases, req, i) && version_lt(installed, releases[i].0)
}

/// The best match for `version_req`, when it is newer than `installed_version`.
pub fn get_newer_version(package: &Package, installed_version: &Version, version_req: &VersionReq) -> (r: Option<Version>)
    ensures
        r is Some <==> newer_available(package.releases@, *installed_version, version_req@),
        r matches Some(v) ==> exists|i: int| is_best_match(package.releases@, version_req@, i)
            && v@ == package.releases@[i].0@ && version_lt(*installed_version, package.releases@[i].0),
{
    match package.get_version_matching(version_req) {
        Some(v) => {
            if installed_version.is_less(v) {
                Some(v.copy())
            } else {
                proof {
                    let b = choose|i: int| is_best_match(package.releases@, version_req@, i) && *v == package.releases@[i].0;
                    assert forall|i: int| is_best_match(package.releases@, version_req@, i)
                        implies !version_lt(*installed_version, package.releases@[i].0) by {
                        lemma_version_equivalent(package.releases@[b].0, package.releases@[i].0, *installed_version);
                    }
                }
                None
            }
        },
        None => None,
    }
}

/// An installed package and the newer version found for it.
#[derive(Debug, PartialEq, Eq)]
pub struct Upgrade {
    pub package_info: PackageInfo,
    pub available_version: Version,
}

/// A newer version meets the package's requested requirement.
pub open spec fn is_upgradable(p: Option<Package>, info: PackageInfo) -> bool {
    p matches Some(pk) && newer_available(pk.releases@, info.installed_version, info.requested_version@)
}

/// No newer version meets the requested requirement, but one exists.
pub open spec fn is_blocked(p: Option<Package>, info: PackageInfo) -> bool {
    p matches Some(pk) && !newer_available(pk.releases@, info.installed_version, info.requested_version@)
        && newer_available(pk.releases@, info.installed_version, seq!['*'])
}

/// The indices below `n`, in order, where `pred` holds.
pub open spec fn indices_where(n: int, pred: spec_fn(int) -> bool) -> Seq<int>
    decreases n,
{
    if n <= 0 {
        Seq::empty()
    } else if pred(n - 1) {
        indices_where(n - 1, pred).push(n - 1)
    } else {
        indices_where(n - 1, pred)
    }
}

/// `u` describes the package of `info` with a newer version that is the best match for
/// `req` in `p`.
pub open spec fn describes(u: Upgrade, info: PackageInfo, p: Option<Package>, req: Seq<char>) -> bool {
    &&& u.package_info.name@ == info.name@
    &&& u.package_info.installed_version@ == info.installed_version@
    &&& u.package_info.requested_version@ == info.requested_version@
    &&& p matches Some(pk) && exists|i: int| is_best_match(pk.releases@, req, i)
        && u.available_version@ == pk.releases@[i].0@ && version_lt(info.installed_version, pk.releases@[i].0)
}

fn copy_info(info: &PackageInfo) -> (r: PackageInfo)
    ensures
        r.name@ == info.name@,
        r.installed_version@ == info.installed_version@,
        r.requested_version@ == info.requested_version@,
{
    PackageInfo {
        name: info.name.clone(),
        installed_version: info.installed_version.copy(),
        requested_version: info.requested_version.copy(),
    }
}

/// Sorts the installed packages `infos` into upgrades within their requested requirement
/// and upgrades that the requirement blocks. `packages[i]` is the descriptor found for
/// `infos[i]`, or `None` when the lookup failed (that package is skipped).
pub fn get_upgrades(infos: &Vec<PackageInfo>, packages: &Vec<Option<Package>>) -> (r: (Vec<Upgrade>, Vec<Upgrade>))
    requires
        infos@.len() == packages@.len(),
    ensures
        ({
            let up = indices_where(infos@.len() as int, |i: int| is_upgradable(packages@[i], infos@[i]));
            let bl = indices_where(infos@.len() as int, |i: int| is_blocked(packages@[i], infos@[i]));
            &&& r.0@.len() == up.len()
            &&& forall|k: int| 0 <= k < up.len() ==> describes(#[trigger] r.0@[k], infos@[up[k]], packages@[up[k]], infos@[up[k]].requested_version@)
            &&& r.1@.len() == bl.len()
            &&& forall|k: int| 0 <= k < bl.len() ==> describes(#[trigger] r.1@[k], infos@[bl[k]], packages@[bl[k]], seq!['*'])
        }),
{
    let ghost upred = |i: int| is_upgradable(packages@[i], infos@[i]);
    let ghost bpred = |i: int| is_blocked(packages@[i], infos@[i]);
    let mut upgrades: Vec<Upgrade> = Vec::new();
    let mut blocked: Vec<Upgrade> = Vec::new();
    let mut i: usize = 0;
    while i < infos.len()
        invariant
            i <= infos@.len(),
            infos@.len() == packages@.len(),
            upred == (|i: int| is_upgradable(packages@[i], infos@[i])),
            bpred == (|i: int| is_blocked(packages@[i], infos@[i])),
            upgrades@.len() == indices_where(i as int, upred).len(),
            forall|k: int| 0 <= k < indices_where(i as int, upred).len() ==> describes(#[trigger] upgrades@[k],
                infos@[indices_where(i as int, upred)[k]], packages@[indices_where(i as int, upred)[k]],
                infos@[indices_where(i as int, upred)[k]].requested_version@),
            blocked@.len() == indices_where(i as int, bpred).len(),
            forall|k: int| 0 <= k < indices_where(i as int, bpred).len() ==> describes(#[trigger] blocked@[k],
                infos@[indices_where(i as int, bpred)[k]], packages@[indices_where(i as int, bpred)[k]], seq!['*']),
        decreases infos@.len() - i,
    {
        let info = &infos[i];
        match &packages[i] {
            None => {},
            Some(package) => {
                match get_newer_version(package, &info.installed_version, &info.requested_version) {
                    Some(v) => {
                        let u = Upgrade { package_info: copy_info(info), available_version: v };
                        upgrades.push(u);
                    },
                    None => {
                        let star = VersionReq::star();
                        match get_newer_version(package, &info.installed_version, &star) {
                            Some(v) => {
                                let u = Upgrade { package_info: copy_info(info), available_version: v };
                                blocked.push(u);
                            },
                            None => {},
                        }
                    },
                }
            },
        }
        i += 1;
    }
    (upgrades, blocked)
}

} // verus!
