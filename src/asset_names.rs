//! Which release asset names are worth considering, by extension.
use vstd::prelude::*;
use crate::text::{chars_of, same_chars, ends_with, is_suffix, slice};

verus! {

/// The index of the last `c` in `s`.
pub open spec fn last_index(s: Seq<char>, c: char) -> Option<int>
    decreases s.len(),
{
    if s.len() == 0 {
        None
    } else if s.last() == c {
        Some(s.len() - 1)
    } else {
        last_index(s.drop_last(), c)
    }
}

/// The index of the last `c` in `s`.
fn find_last(s: &Vec<char>, c: char) -> (r: Option<usize>)
    ensures
        r is None <==> last_index(s@, c) is None,
        r matches Some(i) ==> i < s@.len() && last_index(s@, c) == Some(i as int),
{
    let mut i: usize = s.len();
    assert(s@.subrange(0, s@.len() as int) =~= s@);
    while i > 0
        invariant
            i <= s@.len(),
            last_index(s@, c) == last_index(s@.subrange(0, i as int), c),
        decreases i,
    {
        assert(s@.subrange(0, i as int).drop_last() =~= s@.subrange(0, i - 1));
        if s[i - 1] == c {
            return Some(i - 1);
        }
        i -= 1;
    }
    None
}

/// Extensions of files that are never installable assets.
pub open spec fn unsupported_exts() -> Seq<Seq<char>> {
    seq!["deb"@, "rpm"@, "msi"@, "apk"@, "asc"@, "sha256"@, "sbom"@, "txt"@, "dmg"@, "sh"@]
}

/// Extensions rejected when builds are added to a descriptor by hand.
pub open spec fn unsupported_build_exts() -> Seq<Seq<char>> {
    seq!["deb"@, "rpm"@, "msi"@, "asc"@, "sha256"@, "sbom"@]
}

/// Extensions of single compressed files.
pub open spec fn compressed_exts() -> Seq<Seq<char>> {
    seq!["gz"@, "xz"@, "bz2"@]
}

/// An asset named `n` may be installable: it has no extension, or one outside
/// `unsupported_exts`.
pub open spec fn supported_name(n: Seq<char>) -> bool {
    match last_index(n, '.') {
        None => true,
        Some(i) => !unsupported_exts().contains(n.subrange(i + 1, n.len() as int)),
    }
}

/// An asset named `n` may be added as a build: no extension, or one outside
/// `unsupported_build_exts`, and not a compressed file other than a tar archive.
pub open spec fn supported_build_name(n: Seq<char>) -> bool {
    match last_index(n, '.') {
        None => true,
        Some(i) => {
            let ext = n.subrange(i + 1, n.len() as int);
            let stem = n.subrange(0, i);
            !unsupported_build_exts().contains(ext) && !(compressed_exts().contains(ext) && !is_suffix("tar"@, stem))
        },
    }
}

/// Whether `x` is one of `list`.
fn one_of(x: &Vec<char>, list: &Vec<Vec<char>>) -> (r: bool)
    ensures
        r == list@.map_values(|v: Vec<char>| v@).contains(x@),
{
    let ghost lv = list@.map_values(|v: Vec<char>| v@);
    let mut i: usize = 0;
    while i < list.len()
        invariant
            i <= list@.len(),
            lv == list@.map_values(|v: Vec<char>| v@),
            forall|k: int| 0 <= k < i ==> lv[k] != x@,
        decreases list@.len() - i,
    {
        if same_chars(&list[i], x) {
            assert(lv[i as int] == x@);
            return true;
        }
        i += 1;
    }
    false
}

fn chars_list(items: &Vec<&str>) -> (r: Vec<Vec<char>>)
    ensures
        r@.map_values(|v: Vec<char>| v@) == items@.map_values(|s: &str| s@),
{
    let mut r: Vec<Vec<char>> = Vec::new();
    let mut i: usize = 0;
    while i < items.len()
        invariant
            i <= items@.len(),
            r@.map_values(|v: Vec<char>| v@) == items@.subrange(0, i as int).map_values(|s: &str| s@),
        decreases items@.len() - i,
    {
        let ghost prev = r@.map_values(|v: Vec<char>| v@);
        r.push(chars_of(items[i]));
        assert(r@.map_values(|v: Vec<char>| v@) =~= prev.push(items@[i as int]@));
        assert(items@.subrange(0, i + 1).map_values(|s: &str| s@) =~= items@.subrange(0, i as int).map_values(|s: &str| s@).push(items@[i as int]@));
        i += 1;
    }
    assert(items@.subrange(0, items@.len() as int) =~= items@);
    r
}

/// Whether an asset named `name` may be installable.
pub fn is_supported_name(name: &str) -> (r: bool)
    ensures
        r == supported_name(name@),
{
    let n = chars_of(name);
    match find_last(&n, '.') {
        None => true,
        Some(i) => {
            let len = n.len();
            assert(i < len);
            let ext = slice(&n, i + 1, len);
            let list: Vec<&str> = vec!["deb", "rpm", "msi", "apk", "asc", "sha256", "sbom", "txt", "dmg", "sh"];
            let exts = chars_list(&list);
            assert(list@.map_values(|s: &str| s@) =~= unsupported_exts());
            assert(exts@.map_values(|v: Vec<char>| v@) == unsupported_exts());
            let found = one_of(&ext, &exts);
            assert(found == unsupported_exts().contains(ext@));
            assert(ext@ == name@.subrange(i + 1, name@.len() as int));
            assert(last_index(name@, '.') == Some(i as int));
            !found
        },
    }
}

/// Whether an asset named `name` may be added as a build.
pub fn is_supported_build_name(name: &str) -> (r: bool)
    ensures
        r == supported_build_name(name@),
{
    let n = chars_of(name);
    match find_last(&n, '.') {
        None => true,
        Some(i) => {
            let len = n.len();
            assert(i < len);
            let ext = slice(&n, i + 1, len);
            let stem = slice(&n, 0, i);
            let list: Vec<&str> = vec!["deb", "rpm", "msi", "asc", "sha256", "sbom"];
            let exts = chars_list(&list);
            assert(list@.map_values(|s: &str| s@) =~= unsupported_build_exts());
            assert(exts@.map_values(|v: Vec<char>| v@) == unsupported_build_exts());
            if one_of(&ext, &exts) {
                return false;
            }
            let clist: Vec<&str> = vec!["gz", "xz", "bz2"];
            let cexts = chars_list(&clist);
            assert(clist@.map_values(|s: &str| s@) =~= compressed_exts());
            assert(cexts@.map_values(|v: Vec<char>| v@) == compressed_exts());
            !(one_of(&ext, &cexts) && !ends_with(&stem, &chars_of("tar")))
        },
    }
}

} // verus!
