//! The uninstall planner: which paths to remove, and the self-replacement rule for the
//! running executable on Windows.
use vstd::prelude::*;
use crate::arch_os::Os;
use crate::cache::{after_last_slash, path_join, join_path};
use crate::db::{Database, has_package};
use crate::error::ErrorKind;
use crate::text::{chars_of, string_from, concat, slice, same_chars};

verus! {

/// `p` with an underscore put before its file name.
pub open spec fn with_underscore(p: Seq<char>) -> Seq<char> {
    match after_last_slash(p) {
        Some(n) => p.subrange(0, p.len() - n.len()) + seq!['_'] + n,
        None => seq!['_'] + p,
    }
}

/// `p` with an underscore put before its file name: `bin/clyde.exe` becomes
/// `bin/_clyde.exe`.
pub fn prepend_underscore(path: &str) -> (r: String)
    ensures
        r@ == with_underscore(path@),
{
    let p = chars_of(path);
    let mut i: usize = p.len();
    proof { lemma_after_last_slash_init(p@); }
    while i > 0
        invariant
            i <= p@.len(),
            p@ == path@,
            forall|k: int| i <= k < p@.len() ==> p@[k] != '/',
            after_last_slash(p@) == match after_last_slash(p@.subrange(0, i as int)) {
                Some(t) => Some(t + p@.subrange(i as int, p@.len() as int)),
                None => None,
            },
        decreases i,
    {
        if p[i - 1] == '/' {
            assert(p@.subrange(0, i as int).last() == '/');
            assert(Seq::<char>::empty() + p@.subrange(i as int, p@.len() as int) =~= p@.subrange(i as int, p@.len() as int));
            let head = slice(&p, 0, i);
            let name = slice(&p, i, p.len());
            let under: Vec<char> = vec!['_'];
            let r = concat(&concat(&head, &under), &name);
            assert(r@ =~= with_underscore(path@));
            return string_from(&r);
        }
        proof {
            let pre = p@.subrange(0, i as int);
            assert(pre.drop_last() =~= p@.subrange(0, i - 1));
            match after_last_slash(p@.subrange(0, i - 1)) {
                Some(t) => {
                    assert(t.push(pre.last()) + p@.subrange(i as int, p@.len() as int)
                        =~= t + p@.subrange(i - 1, p@.len() as int));
                },
                None => {},
            }
        }
        i -= 1;
    }
    assert(after_last_slash(p@.subrange(0, 0)) is None);
    let under: Vec<char> = vec!['_'];
    let r = concat(&under, &p);
    assert(r@ =~= with_underscore(path@));
    string_from(&r)
}

proof fn lemma_after_last_slash_init(p: Seq<char>)
    ensures
        after_last_slash(p) == match after_last_slash(p.subrange(0, p.len() as int)) {
            Some(t) => Some(t + p.subrange(p.len() as int, p.len() as int)),
            None => None,
        },
{
    assert(p.subrange(0, p.len() as int) =~= p);
    match after_last_slash(p) {
        Some(t) => { assert(t + p.subrange(p.len() as int, p.len() as int) =~= t); },
        None => {},
    }
}

/// One step of an uninstall.
#[derive(Debug, PartialEq, Eq)]
pub enum UninstallAction {
    /// Delete the file (a broken symbolic link included).
    Remove { path: String },
    /// The running executable on Windows: rename it aside, the renamed copy stays behind.
    MoveAside { from: String, to: String },
}

/// `a` is the step for `path`, given the running executable and the host OS.
pub open spec fn is_step_for(a: UninstallAction, path: Seq<char>, current_exe: Seq<char>, host_os: Os) -> bool {
    if host_os == Os::Windows && path == current_exe {
        a matches UninstallAction::MoveAside { from, to } && from@ == path && to@ == with_underscore(path)
    } else {
        a matches UninstallAction::Remove { path: p } && p@ == path
    }
}

/// The steps that uninstall `package`: one for each file it owns, in the database's order,
/// under `install_dir`. A package that is not installed is `NotInstalled`.
pub fn plan_uninstall(db: &Database, package: &str, install_dir: &str, current_exe: &str, host_os: Os) -> (r: Result<Vec<UninstallAction>, ErrorKind>)
    requires
        db.wf(),
    ensures
        !has_package(db@, package@) <==> r == Err::<Vec<UninstallAction>, ErrorKind>(ErrorKind::NotInstalled),
        has_package(db@, package@) ==> r is Ok,
        r matches Ok(v) ==> exists|i: int| 0 <= i < db@.len() && db@[i].name == package@
            && v@.len() == db@[i].files.len()
            && forall|k: int| 0 <= k < v@.len() ==> is_step_for(#[trigger] v@[k], path_join(install_dir@, db@[i].files[k]), current_exe@, host_os),
{
    if db.get_package_version(package).is_none() {
        return Err(ErrorKind::NotInstalled);
    }
    let files = db.get_package_files(package);
    let ghost fv = files@.map_values(|f: String| f@);
    let ghost idx = db.index_of_spec(package@)->0;
    let exe = chars_of(current_exe);
    let mut steps: Vec<UninstallAction> = Vec::new();
    let mut k: usize = 0;
    while k < files.len()
        invariant
            k <= files@.len(),
            fv == files@.map_values(|f: String| f@),
            exe@ == current_exe@,
            steps@.len() == k,
            forall|j: int| 0 <= j < k ==> is_step_for(#[trigger] steps@[j], path_join(install_dir@, fv[j]), current_exe@, host_os),
        decreases files@.len() - k,
    {
        let path = join_path(install_dir, files[k].as_str());
        assert(path@ == path_join(install_dir@, fv[k as int]));
        if host_os == Os::Windows && same_chars(&chars_of(path.as_str()), &exe) {
            let to = prepend_underscore(path.as_str());
            steps.push(UninstallAction::MoveAside { from: path, to });
        } else {
            steps.push(UninstallAction::Remove { path });
        }
        k += 1;
    }
    proof {
        assert(has_package(db@, package@));
        assert(db.index_of_spec(package@) is Some);
        assert(0 <= idx < db@.len() && db@[idx].name == package@);
        assert(fv == db@[idx].files);
    }
    Ok(steps)
}

} // verus!
