//! The installation database: which packages are installed, at which version, under which
//! requested requirement, and which files each one owns. This is the table the rest of the
//! library reasons about; the program stores it on disk between runs.
use vstd::prelude::*;
use crate::error::ErrorKind;
use crate::text::{chars_of, same_chars};
use crate::version::{Version, VersionReq, VersionView, key_lt, key_less, lemma_key_lt_irreflexive, lemma_key_lt_transitive};

verus! {

/// One installed package.
#[derive(Debug, PartialEq, Eq)]
pub struct PackageInfo {
    pub name: String,
    pub installed_version: Version,
    pub requested_version: VersionReq,
}

/// One row of the database and the files it owns.
#[derive(Debug)]
struct Record {
    info: PackageInfo,
    files: Vec<String>,
}

/// The plain value of one row: name, installed version, requested requirement, owned files
/// (relative to the install prefix).
pub struct RecordView {
    pub name: Seq<char>,
    pub version: VersionView,
    pub requested: Seq<char>,
    pub files: Seq<Seq<char>>,
}

/// The installation database.
#[derive(Debug)]
pub struct Database {
    records: Vec<Record>,
}

/// The plain value of a row.
spec fn record_view(r: Record) -> RecordView {
    RecordView {
        name: r.info.name@,
        version: r.info.installed_version@,
        requested: r.info.requested_version@,
        files: r.files@.map_values(|f: String| f@),
    }
}

impl View for Database {
    type V = Seq<RecordView>;

    closed spec fn view(&self) -> Seq<RecordView> {
        self.records@.map_values(|r: Record| record_view(r))
    }
}

/// Some row of `db` is named `name`.
pub open spec fn has_package(db: Seq<RecordView>, name: Seq<char>) -> bool {
    exists|i: int| 0 <= i < db.len() && db[i].name == name
}

/// No two rows share a name.
pub open spec fn names_unique(db: Seq<RecordView>) -> bool {
    forall|i: int, j: int| 0 <= i < db.len() && 0 <= j < db.len() && db[i].name == db[j].name ==> i == j
}

/// The files owned by `name` in `db`: those of its row, or none.
pub open spec fn owned_files(db: Seq<RecordView>, name: Seq<char>) -> Set<Seq<char>> {
    Set::new(|f: Seq<char>| exists|i: int, k: int| 0 <= i < db.len() && db[i].name == name
        && 0 <= k < db[i].files.len() && db[i].files[k] == f)
}

/// `db` without the row named `name`.
pub open spec fn drop_package(db: Seq<RecordView>, name: Seq<char>) -> Seq<RecordView> {
    if has_package(db, name) {
        db.remove(choose|i: int| 0 <= i < db.len() && db[i].name == name)
    } else {
        db
    }
}

impl Database {
    /// The database holds each package at most once.
    pub open spec fn wf(&self) -> bool {
        names_unique(self@)
    }

    /// An empty database.
    pub fn new_in_memory() -> (r: Database)
        ensures
            r@ == Seq::<RecordView>::empty(),
            r.wf(),
    {
        let r = Database { records: Vec::new() };
        assert(r@ =~= Seq::<RecordView>::empty());
        r
    }

    /// The index of the row named `name`.
    fn index_of(&self, name: &str) -> (r: Option<usize>)
        ensures
            match r {
                Some(i) => i < self@.len() && self@[i as int].name == name@,
                None => !has_package(self@, name@),
            },
    {
        let n = chars_of(name);
        let mut i: usize = 0;
        while i < self.records.len()
            invariant
                i <= self@.len(),
                self@.len() == self.records@.len(),
                n@ == name@,
                forall|k: int| 0 <= k < i ==> self@[k].name != name@,
            decreases self@.len() - i,
        {
            assert(self@[i as int].name == self.records@[i as int].info.name@);
            if same_chars(&chars_of(self.records[i].info.name.as_str()), &n) {
                return Some(i);
            }
            i += 1;
        }
        None
    }

    /// The installed version of `package`, if it is installed.
    pub fn get_package_version(&self, package: &str) -> (r: Option<Version>)
        ensures
            match r {
                Some(v) => exists|i: int| 0 <= i < self@.len() && self@[i].name == package@ && self@[i].version == v@,
                None => !has_package(self@, package@),
            },
    {
        match self.index_of(package) {
            Some(i) => {
                assert(self@[i as int].version == self.records@[i as int].info.installed_version@);
                Some(self.records[i].info.installed_version.copy())
            },
            None => None,
        }
    }

    /// Records `package`, installed at `installed_version` for `requested_version`, owning
    /// `files`. A package already recorded is a `DatabaseError` and changes nothing.
    pub fn add_package(&mut self, package: &str, installed_version: &Version, requested_version: &VersionReq, files: &Vec<String>) -> (r: Result<(), ErrorKind>)
        requires
            old(self).wf(),
        ensures
            final(self).wf(),
            has_package(old(self)@, package@) ==> r == Err::<(), ErrorKind>(ErrorKind::DatabaseError) && final(self)@ == old(self)@,
            !has_package(old(self)@, package@) ==> r is Ok && final(self)@ == old(self)@.push(RecordView {
                name: package@,
                version: installed_version@,
                requested: requested_version@,
                files: files@.map_values(|f: String| f@),
            }),
    {
        if self.index_of(package).is_some() {
            return Err(ErrorKind::DatabaseError);
        }
        let ghost before = self@;
        let info = PackageInfo {
            name: package.to_owned(),
            installed_version: installed_version.copy(),
            requested_version: requested_version.copy(),
        };
        let mut owned: Vec<String> = Vec::new();
        let mut k: usize = 0;
        while k < files.len()
            invariant
                k <= files@.len(),
                owned@.map_values(|f: String| f@) == files@.subrange(0, k as int).map_values(|f: String| f@),
            decreases files@.len() - k,
        {
            let ghost prev = owned@.map_values(|f: String| f@);
            owned.push(files[k].clone());
            assert(owned@.map_values(|f: String| f@) =~= prev.push(files@[k as int]@));
            assert(files@.subrange(0, k + 1).map_values(|f: String| f@) =~= files@.subrange(0, k as int).map_values(|f: String| f@).push(files@[k as int]@));
            k += 1;
        }
        assert(files@.subrange(0, files@.len() as int) =~= files@);
        self.records.push(Record { info, files: owned });
        assert(self@ =~= before.push(RecordView {
            name: package@,
            version: installed_version@,
            requested: requested_version@,
            files: files@.map_values(|f: String| f@),
        }));
        proof {
            assert forall|i: int, j: int| 0 <= i < self@.len() && 0 <= j < self@.len() && self@[i].name == self@[j].name implies i == j by {
                if i < before.len() && j < before.len() {
                } else if i < before.len() {
                    assert(before[i].name == package@);
                } else if j < before.len() {
                    assert(before[j].name == package@);
                }
            }
        }
        Ok(())
    }

    /// Removes `package` and the files it owns from the database.
    pub fn remove_package(&mut self, package: &str) -> (r: Result<(), ErrorKind>)
        requires
            old(self).wf(),
        ensures
            final(self).wf(),
            r is Ok,
            !has_package(final(self)@, package@),
            final(self)@ == drop_package(old(self)@, package@),
            has_package(old(self)@, package@) ==> exists|i: int| 0 <= i < old(self)@.len() && old(self)@[i].name == package@
                && final(self)@ == old(self)@.remove(i),
            !has_package(old(self)@, package@) ==> final(self)@ == old(self)@,
            forall|i: int| 0 <= i < old(self)@.len() && old(self)@[i].name != package@ ==> final(self)@.contains(#[trigger] old(self)@[i]),
    {
        match self.index_of(package) {
            Some(i) => {
                let ghost before = self@;
                self.records.remove(i);
                assert(self@ =~= before.remove(i as int));
                proof {
                    let c = choose|c: int| 0 <= c < before.len() && before[c].name == package@;
                    assert(c == i);
                }
                proof {
                    assert forall|k: int| 0 <= k < before.len() && before[k].name != package@ implies self@.contains(#[trigger] before[k]) by {
                        if k < i {
                            assert(self@[k] == before[k]);
                        } else {
                            assert(self@[k - 1] == before[k]);
                        }
                    }
                    assert forall|k: int| 0 <= k < self@.len() implies self@[k].name != package@ by {
                        if k < i {
                            assert(self@[k] == before[k]);
                        } else {
                            assert(self@[k] == before[k + 1]);
                        }
                    }
                }
                Ok(())
            },
            None => Ok(()),
        }
    }

    /// The files that `package` owns; none when it is not installed.
    pub fn get_package_files(&self, package: &str) -> (r: Vec<String>)
        requires
            self.wf(),
        ensures
            r@.map_values(|f: String| f@).to_set() == owned_files(self@, package@),
            match self.index_of_spec(package@) {
                Some(i) => r@.map_values(|f: String| f@) == self@[i].files,
                None => r@.len() == 0,
            },
    {
        match self.index_of(package) {
            Some(i) => {
                let mut out: Vec<String> = Vec::new();
                let files = &self.records[i].files;
                assert(self@[i as int].files == files@.map_values(|f: String| f@));
                let mut k: usize = 0;
                while k < files.len()
                    invariant
                        k <= files@.len(),
                        out@.map_values(|f: String| f@) == files@.subrange(0, k as int).map_values(|f: String| f@),
                    decreases files@.len() - k,
                {
                    let ghost prev = out@.map_values(|f: String| f@);
                    out.push(files[k].clone());
                    assert(out@.map_values(|f: String| f@) =~= prev.push(files@[k as int]@));
                    assert(files@.subrange(0, k + 1).map_values(|f: String| f@) =~= files@.subrange(0, k as int).map_values(|f: String| f@).push(files@[k as int]@));
                    k += 1;
                }
                assert(files@.subrange(0, files@.len() as int) =~= files@);
                proof {
                    let fs = self@[i as int].files;
                    assert(out@.map_values(|f: String| f@) == fs);
                    assert forall|f: Seq<char>| fs.to_set().contains(f) <==> owned_files(self@, package@).contains(f) by {
                        if owned_files(self@, package@).contains(f) {
                            let (j, m) = choose|j: int, m: int| 0 <= j < self@.len() && self@[j].name == package@
                                && 0 <= m < self@[j].files.len() && self@[j].files[m] == f;
                            assert(j == i);
                            assert(fs.contains(f));
                        }
                        if fs.contains(f) {
                            let m = choose|m: int| 0 <= m < fs.len() && fs[m] == f;
                            assert(self@[i as int].files[m] == f);
                        }
                    }
                    assert(fs.to_set() =~= owned_files(self@, package@));
                }
                out
            },
            None => {
                let out: Vec<String> = Vec::new();
                assert(out@.map_values(|f: String| f@).to_set() =~= owned_files(self@, package@));
                out
            },
        }
    }

    /// The index of the row named `name`, if any.
    pub open spec fn index_of_spec(&self, name: Seq<char>) -> Option<int> {
        if has_package(self@, name) {
            Some(choose|i: int| 0 <= i < self@.len() && self@[i].name == name)
        } else {
            None
        }
    }

    /// The installed packages, sorted by name.
    pub fn get_installed_packages(&self) -> (r: Vec<PackageInfo>)
        ensures
            r@.len() == self@.len(),
            sorted_by_name(r@),
            forall|i: int| 0 <= i < self@.len() ==> row_listed(r@, #[trigger] self@[i]),
    {
        let mut out: Vec<PackageInfo> = Vec::new();
        let mut i: usize = 0;
        while i < self.records.len()
            invariant
                i <= self@.len(),
                self@.len() == self.records@.len(),
                out@.len() == i,
                sorted_by_name(out@),
                forall|j: int| 0 <= j < i ==> row_listed(out@, #[trigger] self@[j]),
            decreases self@.len() - i,
        {
            let info = &self.records[i].info;
            assert(self@[i as int] == record_view(self.records@[i as int]));
            let row = PackageInfo {
                name: info.name.clone(),
                installed_version: info.installed_version.copy(),
                requested_version: info.requested_version.copy(),
            };
            let key = name_key_of(row.name.as_str());
            let mut p: usize = 0;
            while p < out.len() && !key_less(&key, &name_key_of(out[p].name.as_str()))
                invariant
                    p <= out@.len(),
                    key@ == name_key(row.name@),
                    forall|k: int| 0 <= k < p ==> !key_lt(name_key(row.name@), name_key(out@[k].name@)),
                decreases out@.len() - p,
            {
                p += 1;
            }
            let ghost before = out@;
            let ghost x = row;
            proof {
                if p < before.len() {
                    assert(key_lt(name_key(row.name@), name_key(before[p as int].name@)));
                }
                assert(describes_row(x, self@[i as int]));
                lemma_insert_keeps_order(before, p as int, x);
                lemma_insert_listed(before, p as int, x, self@, i as int);
            }
            out.insert(p, row);
            assert(out@ == before.insert(p as int, x));
            i += 1;
        }
        out
    }
}

/// No entry of `s` has a name ranking below that of an earlier entry.
pub open spec fn sorted_by_name(s: Seq<PackageInfo>) -> bool {
    forall|a: int, b: int| 0 <= a < b < s.len() ==> !key_lt(name_key(s[b].name@), name_key(s[a].name@))
}

proof fn lemma_insert_keeps_order(before: Seq<PackageInfo>, p: int, x: PackageInfo)
    requires
        0 <= p <= before.len(),
        sorted_by_name(before),
        forall|k: int| 0 <= k < p ==> !key_lt(name_key(x.name@), name_key(before[k].name@)),
        p < before.len() ==> key_lt(name_key(x.name@), name_key(before[p].name@)),
    ensures
        sorted_by_name(before.insert(p, x)),
{
    let out = before.insert(p, x);
    assert forall|a: int, b: int| 0 <= a < b < out.len() implies !key_lt(name_key(out[b].name@), name_key(out[a].name@)) by {
        let ka = if a < p { a } else { a - 1 };
        let kb = if b < p { b } else { b - 1 };
        if a == p {
            assert(out[a] == x);
            assert(out[b] == before[kb]);
            let nb = name_key(before[kb].name@);
            let np = name_key(before[p].name@);
            let nx = name_key(x.name@);
            if key_lt(nb, nx) {
                lemma_key_lt_transitive(nb, nx, np);
                if kb == p {
                    lemma_key_lt_irreflexive(np);
                }
            }
        } else if b == p {
            assert(out[b] == x);
            assert(out[a] == before[a]);
        } else {
            assert(out[a] == before[ka]);
            assert(out[b] == before[kb]);
        }
    }
}

proof fn lemma_insert_listed(before: Seq<PackageInfo>, p: int, x: PackageInfo, rows: Seq<RecordView>, i: int)
    requires
        0 <= p <= before.len(),
        0 <= i < rows.len(),
        describes_row(x, rows[i]),
        forall|j: int| 0 <= j < i ==> row_listed(before, #[trigger] rows[j]),
    ensures
        forall|j: int| 0 <= j < i + 1 ==> row_listed(before.insert(p, x), #[trigger] rows[j]),
{
    let out = before.insert(p, x);
    assert forall|j: int| 0 <= j < i + 1 implies row_listed(out, #[trigger] rows[j]) by {
        if j == i {
            assert(out[p] == x);
        } else {
            assert(row_listed(before, rows[j]));
            let k = choose|k: int| 0 <= k < before.len() && describes_row(before[k], rows[j]);
            if k < p {
                assert(out[k] == before[k]);
            } else {
                assert(out[k + 1] == before[k]);
            }
        }
    }
}

/// Some entry of `infos` holds row `row`.
pub open spec fn row_listed(infos: Seq<PackageInfo>, row: RecordView) -> bool {
    exists|k: int| 0 <= k < infos.len() && describes_row(infos[k], row)
}

/// A name as a sort key: its characters' code points.
pub open spec fn name_key(s: Seq<char>) -> Seq<u64> {
    s.map_values(|c: char| c as u64)
}

/// `info` holds the name, version and requirement of row `r`.
pub open spec fn describes_row(info: PackageInfo, r: RecordView) -> bool {
    info.name@ == r.name && info.installed_version@ == r.version && info.requested_version@ == r.requested
}

/// The sort key of a name.
fn name_key_of(s: &str) -> (r: Vec<u64>)
    ensures
        r@ == name_key(s@),
{
    let cs = chars_of(s);
    let mut r: Vec<u64> = Vec::new();
    let mut i: usize = 0;
    while i < cs.len()
        invariant
            i <= cs@.len(),
            cs@ == s@,
            r@ == name_key(cs@.subrange(0, i as int)),
        decreases cs@.len() - i,
    {
        r.push(cs[i] as u64);
        i += 1;
        assert(r@ =~= name_key(cs@.subrange(0, i as int)));
    }
    assert(cs@.subrange(0, cs@.len() as int) =~= cs@);
    r
}

} // verus!
