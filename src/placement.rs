//! The file-placement engine's plan: for each `source -> destination` entry of an install
//! spec, which files of the unpacked tree go where in the install prefix.
use vstd::prelude::*;
use crate::error::ErrorKind;
use crate::text::{chars_of, string_from, concat, starts_with, ends_with, same_chars, is_prefix, is_suffix, contains, slice};
use crate::unpacker::{file_name_of, get_file_name, is_contained, contained};
use crate::vars::{VarsMap, expand_all, expand_vars, vars_view};

verus! {

/// File `f` lies below directory `d`.
pub open spec fn lies_under(f: Seq<char>, d: Seq<char>) -> bool {
    is_prefix(d + seq!['/'], f)
}

/// `d` is a directory of the tree: some file lies below it.
pub open spec fn is_dir_in(tree: Seq<Seq<char>>, d: Seq<char>) -> bool {
    exists|i: int| 0 <= i < tree.len() && lies_under(tree[i], d)
}

/// `rest` placed inside directory `d`.
pub open spec fn inside(d: Seq<char>, rest: Seq<char>) -> Seq<char> {
    if is_suffix(seq!['/'], d) { d + rest } else { d + seq!['/'] + rest }
}

/// The moves for directory `d` of the tree placed at `dst`: each file below `d`, in tree
/// order, keeps its path relative to `d`.
pub open spec fn dir_moves(tree: Seq<Seq<char>>, d: Seq<char>, dst: Seq<char>) -> Seq<(Seq<char>, Seq<char>)>
    decreases tree.len(),
{
    if tree.len() == 0 {
        Seq::empty()
    } else {
        let p = dir_moves(tree.drop_last(), d, dst);
        let f = tree.last();
        if lies_under(f, d) {
            p.push((f, inside(dst, f.subrange(d.len() as int + 1, f.len() as int))))
        } else {
            p
        }
    }
}

/// Where file `s` goes for destination `d`: a destination ending in `/` takes the file name.
pub open spec fn file_dest(s: Seq<char>, d: Seq<char>) -> Option<Seq<char>> {
    if is_suffix(seq!['/'], d) {
        match file_name_of(s) {
            Some(n) => Some(d + n),
            None => None,
        }
    } else {
        Some(d)
    }
}

/// Moves whose destinations all stay inside the prefix; otherwise a malformed descriptor.
pub open spec fn checked(m: Seq<(Seq<char>, Seq<char>)>) -> Result<Seq<(Seq<char>, Seq<char>)>, ErrorKind> {
    if forall|k: int| 0 <= k < m.len() ==> is_contained(#[trigger] m[k].1) {
        Ok(m)
    } else {
        Err(ErrorKind::DescriptorParse)
    }
}

/// The moves for one `src -> dst` entry. Both sides are expanded first, a destination that
/// is empty after expansion standing for the source; a `${` left over is `UnknownVariable`; a source that is neither
/// a file nor a directory of the tree is `IoError`.
pub open spec fn entry_plan(src: Seq<char>, dst: Seq<char>, vars: Seq<(Seq<char>, Seq<char>)>, tree: Seq<Seq<char>>) -> Result<Seq<(Seq<char>, Seq<char>)>, ErrorKind> {
    let s = expand_all(src, vars);
    let e = expand_all(dst, vars);
    let d = if e.len() == 0 { s } else { e };
    if contains(s, seq!['$', '{']) || contains(e, seq!['$', '{']) {
        Err(ErrorKind::UnknownVariable)
    } else if is_dir_in(tree, s) {
        checked(dir_moves(tree, s, d))
    } else if tree.contains(s) {
        match file_dest(s, d) {
            Some(t) => checked(seq![(s, t)]),
            None => Err(ErrorKind::IoError),
        }
    } else {
        Err(ErrorKind::IoError)
    }
}

/// The moves for all entries, in order; the first failing entry decides the error.
pub open spec fn placement_plan(entries: Seq<(Seq<char>, Seq<char>)>, vars: Seq<(Seq<char>, Seq<char>)>, tree: Seq<Seq<char>>) -> Result<Seq<(Seq<char>, Seq<char>)>, ErrorKind>
    decreases entries.len(),
{
    if entries.len() == 0 {
        Ok(Seq::empty())
    } else {
        match placement_plan(entries.drop_last(), vars, tree) {
            Err(e) => Err(e),
            Ok(p) => match entry_plan(entries.last().0, entries.last().1, vars, tree) {
                Err(e) => Err(e),
                Ok(m) => Ok(p + m),
            },
        }
    }
}

/// The plain view of pairs of strings.
pub open spec fn pairs_view(v: Seq<(String, String)>) -> Seq<(Seq<char>, Seq<char>)> {
    v.map_values(|e: (String, String)| (e.0@, e.1@))
}

/// The plain view of a list of strings.
pub open spec fn strings_view(v: Seq<String>) -> Seq<Seq<char>> {
    v.map_values(|s: String| s@)
}

/// The destinations of a plan: the files that the package will own.
pub open spec fn placed_files(m: Seq<(Seq<char>, Seq<char>)>) -> Set<Seq<char>> {
    Set::new(|f: Seq<char>| exists|k: int| 0 <= k < m.len() && m[k].1 == f)
}

/// Whether directory `d` holds some file of the tree.
fn dir_in_tree(tree: &Vec<String>, d: &Vec<char>) -> (r: bool)
    ensures
        r == is_dir_in(strings_view(tree@), d@),
{
    let mut prefix = d.clone();
    prefix.push('/');
    let mut i: usize = 0;
    while i < tree.len()
        invariant
            i <= tree@.len(),
            prefix@ == d@ + seq!['/'],
            forall|k: int| 0 <= k < i ==> !lies_under(#[trigger] strings_view(tree@)[k], d@),
        decreases tree@.len() - i,
    {
        if starts_with(&chars_of(tree[i].as_str()), &prefix) {
            assert(lies_under(strings_view(tree@)[i as int], d@));
            return true;
        }
        i += 1;
    }
    false
}

/// Whether `s` is a file of the tree.
fn file_in_tree(tree: &Vec<String>, s: &Vec<char>) -> (r: bool)
    ensures
        r == strings_view(tree@).contains(s@),
{
    let mut i: usize = 0;
    while i < tree.len()
        invariant
            i <= tree@.len(),
            forall|k: int| 0 <= k < i ==> strings_view(tree@)[k] != s@,
        decreases tree@.len() - i,
    {
        if same_chars(&chars_of(tree[i].as_str()), s) {
            assert(strings_view(tree@)[i as int] == s@);
            return true;
        }
        i += 1;
    }
    false
}

/// `rest` placed inside directory `d`.
fn inside_dir(d: &Vec<char>, rest: &Vec<char>) -> (r: Vec<char>)
    ensures
        r@ == inside(d@, rest@),
{
    let slash: Vec<char> = vec!['/'];
    assert(slash@ =~= seq!['/']);
    if ends_with(d, &slash) {
        concat(d, rest)
    } else {
        concat(&concat(d, &slash), rest)
    }
}

/// The moves for directory `d` of the tree placed at `dst`.
fn moves_for_dir(tree: &Vec<String>, d: &Vec<char>, dst: &Vec<char>) -> (r: Vec<(String, String)>)
    ensures
        pairs_view(r@) == dir_moves(strings_view(tree@), d@, dst@),
{
    let ghost tv = strings_view(tree@);
    let mut prefix = d.clone();
    prefix.push('/');
    let mut out: Vec<(String, String)> = Vec::new();
    let mut i: usize = 0;
    while i < tree.len()
        invariant
            i <= tree@.len(),
            tv == strings_view(tree@),
            prefix@ == d@ + seq!['/'],
            pairs_view(out@) == dir_moves(tv.subrange(0, i as int), d@, dst@),
        decreases tree@.len() - i,
    {
        let ghost before = pairs_view(out@);
        assert(tv.subrange(0, i + 1).drop_last() =~= tv.subrange(0, i as int));
        assert(tv.subrange(0, i + 1).last() == tree@[i as int]@);
        let f = chars_of(tree[i].as_str());
        assert(prefix@.len() == d@.len() + 1);
        if starts_with(&f, &prefix) {
            let rest = slice(&f, prefix.len(), f.len());
            let target = inside_dir(dst, &rest);
            out.push((tree[i].clone(), string_from(&target)));
            assert(pairs_view(out@) =~= before.push((f@, target@)));
        }
        i += 1;
    }
    assert(tv.subrange(0, tree@.len() as int) =~= tv);
    out
}

/// Checks that every destination of `m` stays inside the prefix.
fn check_moves(m: Vec<(String, String)>) -> (r: Result<Vec<(String, String)>, ErrorKind>)
    ensures
        match checked(pairs_view(m@)) {
            Ok(v) => r matches Ok(x) && pairs_view(x@) == v,
            Err(e) => r == Err::<Vec<(String, String)>, ErrorKind>(e),
        },
{
    let mut k: usize = 0;
    while k < m.len()
        invariant
            k <= m@.len(),
            forall|j: int| 0 <= j < k ==> is_contained(#[trigger] pairs_view(m@)[j].1),
        decreases m@.len() - k,
    {
        if !contained(&chars_of(m[k].1.as_str())) {
            assert(!is_contained(pairs_view(m@)[k as int].1));
            return Err(ErrorKind::DescriptorParse);
        }
        k += 1;
    }
    Ok(m)
}

/// The moves for one entry `src -> dst` of an install spec, over the unpacked tree listed
/// as relative file paths.
pub fn plan_entry(src: &str, dst: &str, vars: &VarsMap, tree: &Vec<String>) -> (r: Result<Vec<(String, String)>, ErrorKind>)
    ensures
        match entry_plan(src@, dst@, vars_view(vars@), strings_view(tree@)) {
            Ok(m) => r matches Ok(v) && pairs_view(v@) == m,
            Err(e) => r == Err::<Vec<(String, String)>, ErrorKind>(e),
        },
{
    let s = expand_vars(src, vars)?;
    let e = expand_vars(dst, vars)?;
    let d = if chars_of(e.as_str()).len() == 0 { s.clone() } else { e };
    let sc = chars_of(s.as_str());
    let dc = chars_of(d.as_str());
    if dir_in_tree(tree, &sc) {
        return check_moves(moves_for_dir(tree, &sc, &dc));
    }
    if !file_in_tree(tree, &sc) {
        return Err(ErrorKind::IoError);
    }
    let slash: Vec<char> = vec!['/'];
    assert(slash@ =~= seq!['/']);
    let target = if ends_with(&dc, &slash) {
        match get_file_name(s.as_str()) {
            Ok(n) => concat(&dc, &chars_of(n.as_str())),
            Err(_) => {
                return Err(ErrorKind::IoError);
            },
        }
    } else {
        dc
    };
    let mut one: Vec<(String, String)> = Vec::new();
    one.push((s, string_from(&target)));
    assert(pairs_view(one@) =~= seq![(sc@, target@)]);
    check_moves(one)
}

/// Once a prefix of the entries fails, the whole plan fails the same way.
proof fn lemma_plan_error_stays(entries: Seq<(Seq<char>, Seq<char>)>, vars: Seq<(Seq<char>, Seq<char>)>, tree: Seq<Seq<char>>, i: int)
    requires
        0 <= i <= entries.len(),
        placement_plan(entries.subrange(0, i), vars, tree) is Err,
    ensures
        placement_plan(entries, vars, tree) == placement_plan(entries.subrange(0, i), vars, tree),
    decreases entries.len() - i,
{
    if i < entries.len() {
        assert(entries.subrange(0, i + 1).drop_last() =~= entries.subrange(0, i));
        lemma_plan_error_stays(entries, vars, tree, i + 1);
    } else {
        assert(entries.subrange(0, i) =~= entries);
    }
}

/// The moves for all entries of `files`, in order, over the unpacked tree listed as
/// relative file paths.
pub fn plan_placements(files: &Vec<(String, String)>, vars: &VarsMap, tree: &Vec<String>) -> (r: Result<Vec<(String, String)>, ErrorKind>)
    ensures
        match placement_plan(pairs_view(files@), vars_view(vars@), strings_view(tree@)) {
            Ok(m) => r matches Ok(v) && pairs_view(v@) == m,
            Err(e) => r == Err::<Vec<(String, String)>, ErrorKind>(e),
        },
{
    let ghost fv = pairs_view(files@);
    let mut out: Vec<(String, String)> = Vec::new();
    let mut i: usize = 0;
    assert(pairs_view(out@) =~= Seq::<(Seq<char>, Seq<char>)>::empty());
    assert(fv.subrange(0, 0) =~= Seq::<(Seq<char>, Seq<char>)>::empty());
    while i < files.len()
        invariant
            i <= files@.len(),
            fv == pairs_view(files@),
            placement_plan(fv.subrange(0, i as int), vars_view(vars@), strings_view(tree@)) == Ok::<Seq<(Seq<char>, Seq<char>)>, ErrorKind>(pairs_view(out@)),
        decreases files@.len() - i,
    {
        assert(fv.subrange(0, i + 1).drop_last() =~= fv.subrange(0, i as int));
        assert(fv.subrange(0, i + 1).last() == (files@[i as int].0@, files@[i as int].1@));
        let moves = match plan_entry(files[i].0.as_str(), files[i].1.as_str(), vars, tree) {
            Ok(m) => m,
            Err(e) => {
                proof { lemma_plan_error_stays(fv, vars_view(vars@), strings_view(tree@), i + 1); }
                return Err(e);
            },
        };
        let ghost before = pairs_view(out@);
        let mut k: usize = 0;
        while k < moves.len()
            invariant
                k <= moves@.len(),
                pairs_view(out@) == before + pairs_view(moves@).subrange(0, k as int),
            decreases moves@.len() - k,
        {
            let ghost prev = pairs_view(out@);
            out.push((moves[k].0.clone(), moves[k].1.clone()));
            assert(pairs_view(out@) =~= prev.push(pairs_view(moves@)[k as int]));
            assert(pairs_view(moves@).subrange(0, k + 1) =~= pairs_view(moves@).subrange(0, k as int).push(pairs_view(moves@)[k as int]));
            k += 1;
        }
        assert(pairs_view(moves@).subrange(0, moves@.len() as int) =~= pairs_view(moves@));
        i += 1;
    }
    assert(fv.subrange(0, files@.len() as int) =~= fv);
    Ok(out)
}

} // verus!
