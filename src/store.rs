//! The descriptor store: where a package's descriptor may be found, and banded search.
use vstd::prelude::*;
use crate::cache::{path_join, join_path};
use crate::error::ErrorKind;
use crate::text::{chars_of, string_from, concat, ends_with, is_suffix, find_in, contains};

verus! {

/// The descriptor file name inside a package directory.
pub const INDEX_NAME: &'static str = "index.yaml";

/// A package found by a search.
#[derive(Debug, PartialEq, Eq)]
pub struct SearchHit {
    pub name: String,
    pub description: String,
}

/// A store of descriptors rooted at a directory, kept up to date with git.
#[derive(Debug)]
pub struct GitStore {
    dir: String,
}

impl View for GitStore {
    type V = Seq<char>;

    closed spec fn view(&self) -> Seq<char> {
        self.dir@
    }
}

/// Where the descriptor of `name` may be, in the order they are tried:
/// `<store>/packages/<name>/index.yaml`, `<store>/packages/<name>.yaml`,
/// `<store>/<name>/index.yaml`, `<store>/<name>.yaml`, then `name` itself when it ends in
/// `.yaml`.
pub open spec fn candidate_paths(store: Seq<char>, name: Seq<char>) -> Seq<Seq<char>> {
    let packages = path_join(store, "packages"@);
    let fixed = seq![
        path_join(path_join(packages, name), "index.yaml"@),
        path_join(packages, name + ".yaml"@),
        path_join(path_join(store, name), "index.yaml"@),
        path_join(store, name + ".yaml"@),
    ];
    if is_suffix(".yaml"@, name) { fixed.push(name) } else { fixed }
}

impl GitStore {
    pub fn new(dir: &str) -> (r: GitStore)
        ensures
            r@ == dir@,
    {
        GitStore { dir: dir.to_owned() }
    }

    /// `<store>/packages`.
    pub fn packages_dir(&self) -> (r: String)
        ensures
            r@ == path_join(self@, "packages"@),
    {
        join_path(self.dir.as_str(), "packages")
    }

    /// The paths where the descriptor of `name` may be, in lookup order.
    pub fn candidate_paths(&self, name: &str) -> (r: Vec<String>)
        ensures
            r@.map_values(|s: String| s@) == candidate_paths(self@, name@),
    {
        let packages = self.packages_dir();
        let yaml = string_from(&concat(&chars_of(name), &chars_of(".yaml")));
        let mut r: Vec<String> = Vec::new();
        r.push(join_path(join_path(packages.as_str(), name).as_str(), INDEX_NAME));
        r.push(join_path(packages.as_str(), yaml.as_str()));
        r.push(join_path(join_path(self.dir.as_str(), name).as_str(), INDEX_NAME));
        r.push(join_path(self.dir.as_str(), yaml.as_str()));
        if ends_with(&chars_of(name), &chars_of(".yaml")) {
            r.push(name.to_owned());
        }
        assert(r@.map_values(|s: String| s@) =~= candidate_paths(self@, name@));
        r
    }
}

/// The first candidate that is a file; `PackageNotFound` when none is.
pub fn pick_existing(candidates: &Vec<String>, is_file: &Vec<bool>) -> (r: Result<usize, ErrorKind>)
    requires
        candidates@.len() == is_file@.len(),
    ensures
        match r {
            Ok(i) => i < is_file@.len() && is_file@[i as int] && forall|k: int| 0 <= k < i ==> !is_file@[k],
            Err(e) => e == ErrorKind::PackageNotFound && forall|k: int| 0 <= k < is_file@.len() ==> !is_file@[k],
        },
{
    let mut i: usize = 0;
    while i < is_file.len()
        invariant
            i <= is_file@.len(),
            forall|k: int| 0 <= k < i ==> !is_file@[k],
        decreases is_file@.len() - i,
    {
        if is_file[i] {
            return Ok(i);
        }
        i += 1;
    }
    Err(ErrorKind::PackageNotFound)
}

/// The lowercase form of `s`.
pub uninterp spec fn lower_of(s: Seq<char>) -> Seq<char>;

/// Relies on `str::to_lowercase`: the result depends on the characters alone.
#[verifier::external_body]
fn lowercase(s: &str) -> (r: String)
    ensures
        r@ == lower_of(s@),
{
    s.to_lowercase()
}

/// Which band of search results a package falls in.
#[derive(Debug, PartialEq, Eq, Clone, Copy, Structural)]
pub enum Band {
    Name,
    Description,
}

/// The band of a package whose lowercase name and description are given, for a lowercase
/// query: its name holds the query, else its description does, else none.
pub open spec fn band_of(name: Seq<char>, description: Seq<char>, query: Seq<char>) -> Option<Band> {
    if contains(name, query) {
        Some(Band::Name)
    } else if contains(description, query) {
        Some(Band::Description)
    } else {
        None
    }
}

/// The band of a package from its lowercase name and description and a lowercase query.
pub fn band(name_lower: &str, description_lower: &str, query_lower: &str) -> (r: Option<Band>)
    ensures
        r == band_of(name_lower@, description_lower@, query_lower@),
{
    let q = chars_of(query_lower);
    if find_in(&chars_of(name_lower), &q) {
        Some(Band::Name)
    } else if find_in(&chars_of(description_lower), &q) {
        Some(Band::Description)
    } else {
        None
    }
}

/// The band of a hit for `query`, ignoring case.
pub open spec fn hit_band(h: SearchHit, query: Seq<char>) -> Option<Band> {
    band_of(lower_of(h.name@), lower_of(h.description@), lower_of(query))
}

/// The indices below `n`, in order, of entries in band `b`.
pub open spec fn band_indices(entries: Seq<SearchHit>, query: Seq<char>, b: Band, n: int) -> Seq<int>
    decreases n,
{
    if n <= 0 {
        Seq::empty()
    } else if hit_band(entries[n - 1], query) == Some(b) {
        band_indices(entries, query, b, n - 1).push(n - 1)
    } else {
        band_indices(entries, query, b, n - 1)
    }
}

fn copy_hit(h: &SearchHit) -> (r: SearchHit)
    ensures
        r.name@ == h.name@,
        r.description@ == h.description@,
{
    SearchHit { name: h.name.clone(), description: h.description.clone() }
}

/// Searches `entries` for `query`, ignoring case: first the packages whose name holds it,
/// then those whose description does, each band in the order given.
pub fn search(entries: &Vec<SearchHit>, query: &str) -> (r: Vec<SearchHit>)
    ensures
        ({
            let names = band_indices(entries@, query@, Band::Name, entries@.len() as int);
            let descs = band_indices(entries@, query@, Band::Description, entries@.len() as int);
            &&& r@.len() == names.len() + descs.len()
            &&& forall|k: int| 0 <= k < names.len() ==> (#[trigger] r@[k]).name@ == entries@[names[k]].name@
                && r@[k].description@ == entries@[names[k]].description@
            &&& forall|k: int| 0 <= k < descs.len() ==> (#[trigger] r@[names.len() + k]).name@ == entries@[descs[k]].name@
                && r@[names.len() + k].description@ == entries@[descs[k]].description@
        }),
{
    let q = lowercase(query);
    let mut names: Vec<SearchHit> = Vec::new();
    let mut descs: Vec<SearchHit> = Vec::new();
    let mut i: usize = 0;
    while i < entries.len()
        invariant
            i <= entries@.len(),
            q@ == lower_of(query@),
            names@.len() == band_indices(entries@, query@, Band::Name, i as int).len(),
            forall|k: int| 0 <= k < names@.len() ==> (#[trigger] names@[k]).name@ == entries@[band_indices(entries@, query@, Band::Name, i as int)[k]].name@
                && names@[k].description@ == entries@[band_indices(entries@, query@, Band::Name, i as int)[k]].description@,
            descs@.len() == band_indices(entries@, query@, Band::Description, i as int).len(),
            forall|k: int| 0 <= k < descs@.len() ==> (#[trigger] descs@[k]).name@ == entries@[band_indices(entries@, query@, Band::Description, i as int)[k]].name@
                && descs@[k].description@ == entries@[band_indices(entries@, query@, Band::Description, i as int)[k]].description@,
        decreases entries@.len() - i,
    {
        let h = &entries[i];
        let n = lowercase(h.name.as_str());
        let d = lowercase(h.description.as_str());
        match band(n.as_str(), d.as_str(), q.as_str()) {
            Some(Band::Name) => names.push(copy_hit(h)),
            Some(Band::Description) => descs.push(copy_hit(h)),
            None => {},
        }
        i += 1;
    }
    let ghost nl = names@.len();
    let mut k: usize = 0;
    let ghost dv = descs@;
    let ghost nv = names@;
    while k < descs.len()
        invariant
            k <= dv.len(),
            dv == descs@,
            names@.len() == nl + k,
            nl == nv.len(),
            forall|j: int| 0 <= j < nl ==> names@[j] == nv[j],
            nl == band_indices(entries@, query@, Band::Name, entries@.len() as int).len(),
            dv.len() == band_indices(entries@, query@, Band::Description, entries@.len() as int).len(),
            forall|j: int| 0 <= j < nl ==> (#[trigger] nv[j]).name@ == entries@[band_indices(entries@, query@, Band::Name, entries@.len() as int)[j]].name@
                && nv[j].description@ == entries@[band_indices(entries@, query@, Band::Name, entries@.len() as int)[j]].description@,
            forall|j: int| 0 <= j < dv.len() ==> (#[trigger] dv[j]).name@ == entries@[band_indices(entries@, query@, Band::Description, entries@.len() as int)[j]].name@
                && dv[j].description@ == entries@[band_indices(entries@, query@, Band::Description, entries@.len() as int)[j]].description@,
            forall|j: int| 0 <= j < k ==> (#[trigger] names@[nl + j]).name@ == dv[j].name@ && names@[nl + j].description@ == dv[j].description@,
        decreases dv.len() - k,
    {
        names.push(copy_hit(&descs[k]));
        k += 1;
    }
    proof {
        let nb = band_indices(entries@, query@, Band::Name, entries@.len() as int);
        let db = band_indices(entries@, query@, Band::Description, entries@.len() as int);
        assert forall|j: int| 0 <= j < nb.len() implies (#[trigger] names@[j]).name@ == entries@[nb[j]].name@
            && names@[j].description@ == entries@[nb[j]].description@ by {
            assert(names@[j] == nv[j]);
        }
        assert forall|j: int| 0 <= j < db.len() implies (#[trigger] names@[nb.len() + j]).name@ == entries@[db[j]].name@
            && names@[nb.len() + j].description@ == entries@[db[j]].description@ by {
            assert(names@[nl + j].name@ == dv[j].name@);
        }
    }
    names
}

} // verus!
