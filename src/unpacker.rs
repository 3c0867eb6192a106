//! Choosing an unpacker for an asset, and where each archive entry lands after stripping
//! leading path components.
use vstd::prelude::*;
use crate::arch_os::Os;
use crate::error::ErrorKind;
use crate::text::{chars_of, string_from, concat, ends_with, is_suffix, same_chars};

verus! {

/// The non-empty components of a `/`-separated path.
pub open spec fn components(s: Seq<char>) -> Seq<Seq<char>>
    decreases s.len(),
{
    if s.len() == 0 {
        Seq::empty()
    } else {
        let p = components(s.drop_last());
        let c = s.last();
        if c == '/' {
            p
        } else if p.len() > 0 && s.len() >= 2 && s[s.len() - 2] != '/' {
            p.update(p.len() - 1, p.last().push(c))
        } else {
            p.push(seq![c])
        }
    }
}

/// Components joined with `/`.
pub open spec fn join(parts: Seq<Seq<char>>) -> Seq<char>
    decreases parts.len(),
{
    if parts.len() == 0 {
        Seq::empty()
    } else if parts.len() == 1 {
        parts[0]
    } else {
        join(parts.drop_last()) + seq!['/'] + parts.last()
    }
}

/// The path left after dropping the first `n` components, if any is left.
pub open spec fn stripped(p: Seq<char>, n: nat) -> Option<Seq<char>> {
    if n == 0 {
        Some(p)
    } else {
        let c = components(p);
        if c.len() <= n {
            None
        } else {
            Some(join(c.subrange(n as int, c.len() as int)))
        }
    }
}

/// The components of `s`.
pub fn split_components(s: &Vec<char>) -> (r: Vec<Vec<char>>)
    ensures
        r@.map_values(|v: Vec<char>| v@) == components(s@),
{
    let mut r: Vec<Vec<char>> = Vec::new();
    let mut i: usize = 0;
    while i < s.len()
        invariant
            i <= s@.len(),
            r@.map_values(|v: Vec<char>| v@) == components(s@.subrange(0, i as int)),
        decreases s@.len() - i,
    {
        let ghost before = s@.subrange(0, i as int);
        let ghost old_r = r@.map_values(|v: Vec<char>| v@);
        let c = s[i];
        assert(s@.subrange(0, i + 1).drop_last() =~= before);
        if c == '/' {
        } else if r.len() > 0 && i >= 1 && s[i - 1] != '/' {
            let last = r.len() - 1;
            let mut part = r[last].clone();
            part.push(c);
            r.set(last, part);
            assert(r@.map_values(|v: Vec<char>| v@) =~= old_r.update(old_r.len() - 1, old_r.last().push(c)));
        } else {
            let mut part: Vec<char> = Vec::new();
            part.push(c);
            r.push(part);
            assert(r@.map_values(|v: Vec<char>| v@) =~= old_r.push(seq![c]));
        }
        i += 1;
    }
    assert(s@.subrange(0, s@.len() as int) =~= s@);
    r
}

/// The parts `from..` of `parts`, joined with `/`.
fn join_from(parts: &Vec<Vec<char>>, from: usize) -> (r: Vec<char>)
    requires
        from < parts@.len(),
    ensures
        r@ == join(parts@.map_values(|v: Vec<char>| v@).subrange(from as int, parts@.len() as int)),
{
    let ghost pv = parts@.map_values(|v: Vec<char>| v@);
    let mut acc = parts[from].clone();
    let n = parts.len();
    let mut i: usize = from + 1;
    assert(pv.subrange(from as int, from + 1) =~= seq![pv[from as int]]);
    while i < parts.len()
        invariant
            from < i <= parts@.len(),
            pv == parts@.map_values(|v: Vec<char>| v@),
            acc@ == join(pv.subrange(from as int, i as int)),
        decreases parts@.len() - i,
    {
        let slash: Vec<char> = vec!['/'];
        acc = concat(&concat(&acc, &slash), &parts[i]);
        assert(pv.subrange(from as int, i + 1).drop_last() =~= pv.subrange(from as int, i as int));
        i += 1;
    }
    acc
}

/// Drops the first `strip` components of `path`; `None` when nothing is left.
pub fn apply_strip(path: &str, strip: u32) -> (r: Option<String>)
    ensures
        match stripped(path@, strip as nat) {
            Some(p) => r matches Some(s) && s@ == p,
            None => r is None,
        },
{
    if strip == 0 {
        return Some(path.to_owned());
    }
    let parts = split_components(&chars_of(path));
    if parts.len() <= strip as usize {
        return None;
    }
    let joined = join_from(&parts, strip as usize);
    Some(string_from(&joined))
}

/// A relative path that stays below the directory it is joined to: it does not start with
/// `/` and no component is `..`.
pub open spec fn is_contained(p: Seq<char>) -> bool {
    &&& !(p.len() > 0 && p[0] == '/')
    &&& forall|k: int| 0 <= k < components(p).len() ==> components(p)[k] != seq!['.', '.']
}

/// Whether `p` stays below the directory it is joined to.
pub fn contained(p: &Vec<char>) -> (r: bool)
    ensures
        r == is_contained(p@),
{
    if p.len() > 0 && p[0] == '/' {
        return false;
    }
    let parts = split_components(p);
    let ghost pv = parts@.map_values(|v: Vec<char>| v@);
    let mut i: usize = 0;
    while i < parts.len()
        invariant
            i <= parts@.len(),
            pv == parts@.map_values(|v: Vec<char>| v@),
            pv == components(p@),
            pv.len() == parts@.len(),
            forall|k: int| 0 <= k < i ==> pv[k] != seq!['.', '.'],
        decreases parts@.len() - i,
    {
        assert(pv[i as int] == parts@[i as int]@);
        let up: Vec<char> = vec!['.', '.'];
        assert(up@ =~= seq!['.', '.']);
        if same_chars(&parts[i], &up) {
            return false;
        }
        i += 1;
    }
    true
}

/// The entries that extraction writes: `(index, destination)` for each entry, in order,
/// that is not a directory and keeps a path after stripping `n` components.
pub open spec fn extraction_plan(entries: Seq<(Seq<char>, bool)>, n: nat) -> Seq<(int, Seq<char>)>
    decreases entries.len(),
{
    if entries.len() == 0 {
        Seq::empty()
    } else {
        let p = extraction_plan(entries.drop_last(), n);
        let e = entries.last();
        match stripped(e.0, n) {
            Some(d) => if e.1 { p } else { p.push(((entries.len() - 1) as int, d)) },
            None => p,
        }
    }
}

/// The plain view of archive entries: path and whether the entry is a directory.
pub open spec fn entries_view(entries: Seq<(String, bool)>) -> Seq<(Seq<char>, bool)> {
    entries.map_values(|e: (String, bool)| (e.0@, e.1))
}

/// Plans the extraction of an archive listed as `(path, is_directory)` entries, stripping
/// `strip` leading components. Fails with `UnsafeArchive` when a destination would leave
/// the extraction directory.
pub fn plan_extraction(entries: &Vec<(String, bool)>, strip: u32) -> (r: Result<Vec<(usize, String)>, ErrorKind>)
    ensures
        match r {
            Ok(v) => v@.map_values(|e: (usize, String)| (e.0 as int, e.1@)) == extraction_plan(entries_view(entries@), strip as nat)
                && forall|k: int| 0 <= k < v@.len() ==> is_contained((#[trigger] v@[k]).1@),
            Err(e) => e == ErrorKind::UnsafeArchive
                && exists|k: int| 0 <= k < extraction_plan(entries_view(entries@), strip as nat).len()
                    && !is_contained((#[trigger] extraction_plan(entries_view(entries@), strip as nat)[k]).1),
        },
{
    let ghost ev = entries_view(entries@);
    let mut out: Vec<(usize, String)> = Vec::new();
    let mut i: usize = 0;
    while i < entries.len()
        invariant
            i <= entries@.len(),
            ev == entries_view(entries@),
            out@.map_values(|e: (usize, String)| (e.0 as int, e.1@)) == extraction_plan(ev.subrange(0, i as int), strip as nat),
            forall|k: int| 0 <= k < out@.len() ==> is_contained((#[trigger] out@[k]).1@),
        decreases entries@.len() - i,
    {
        let ghost old_out = out@.map_values(|e: (usize, String)| (e.0 as int, e.1@));
        assert(ev.subrange(0, i + 1).drop_last() =~= ev.subrange(0, i as int));
        assert(ev.subrange(0, i + 1).last() == (entries@[i as int].0@, entries@[i as int].1));
        match apply_strip(entries[i].0.as_str(), strip) {
            Some(d) => {
                if !entries[i].1 {
                    if !contained(&chars_of(d.as_str())) {
                        proof {
                            let plan = extraction_plan(ev.subrange(0, i + 1), strip as nat);
                            assert(plan == old_out.push((i as int, d@)));
                            lemma_plan_prefix(ev, strip as nat, i + 1);
                            assert(ev.subrange(0, entries@.len() as int) =~= ev);
                            assert(extraction_plan(ev, strip as nat)[plan.len() - 1] == plan[plan.len() - 1]);
                        }
                        return Err(ErrorKind::UnsafeArchive);
                    }
                    out.push((i, d));
                    assert(out@.map_values(|e: (usize, String)| (e.0 as int, e.1@)) =~= old_out.push((i as int, out@.last().1@)));
                }
            },
            None => {},
        }
        i += 1;
    }
    assert(ev.subrange(0, entries@.len() as int) =~= ev);
    Ok(out)
}

/// The plan of a prefix of the entries is a prefix of the whole plan.
proof fn lemma_plan_prefix(entries: Seq<(Seq<char>, bool)>, n: nat, i: int)
    requires
        0 <= i <= entries.len(),
    ensures
        extraction_plan(entries.subrange(0, i), n).len() <= extraction_plan(entries, n).len(),
        forall|k: int| 0 <= k < extraction_plan(entries.subrange(0, i), n).len()
            ==> extraction_plan(entries, n)[k] == #[trigger] extraction_plan(entries.subrange(0, i), n)[k],
    decreases entries.len() - i,
{
    if i < entries.len() {
        lemma_plan_prefix(entries, n, i + 1);
        assert(entries.subrange(0, i + 1).drop_last() =~= entries.subrange(0, i));
        let a = extraction_plan(entries.subrange(0, i), n);
        let b = extraction_plan(entries.subrange(0, i + 1), n);
        assert(a.len() <= b.len());
        assert forall|k: int| 0 <= k < a.len() implies b[k] == a[k] by {}
    } else {
        assert(entries.subrange(0, i) =~= entries);
    }
}

/// A path with fewer than `n` components loses them all when `n` are stripped.
proof fn lemma_strip_too_deep(p: Seq<char>, n: nat)
    requires
        n > 0,
        components(p).len() < n,
    ensures
        stripped(p, n) is None,
{
}

/// Stripping more components than the deepest entry of an archive has places no file.
pub proof fn lemma_strip_beyond_depth(entries: Seq<(Seq<char>, bool)>, n: nat)
    requires
        n > 0,
        forall|k: int| 0 <= k < entries.len() ==> components((#[trigger] entries[k]).0).len() < n,
    ensures
        extraction_plan(entries, n).len() == 0,
    decreases entries.len(),
{
    if entries.len() > 0 {
        let e = entries.drop_last();
        assert forall|k: int| 0 <= k < e.len() implies components((#[trigger] e[k]).0).len() < n by {
            assert(e[k] == entries[k]);
        }
        lemma_strip_beyond_depth(e, n);
        lemma_strip_too_deep(entries.last().0, n);
    }
}

/// The file name that components `c` end with, as a path reads it: `.` components are
/// passed over, and a path that ends in `..` or has nothing left has none.
pub open spec fn last_name(c: Seq<Seq<char>>) -> Option<Seq<char>>
    decreases c.len(),
{
    if c.len() == 0 {
        None
    } else if c.last() == seq!['.'] {
        last_name(c.drop_last())
    } else if c.last() == seq!['.', '.'] {
        None
    } else {
        Some(c.last())
    }
}

/// The file name of a path.
pub open spec fn file_name_of(p: Seq<char>) -> Option<Seq<char>> {
    last_name(components(p))
}

/// The file name of `path`; `IoError` when it has none (`/`, `.`, `a/..`).
pub fn get_file_name(path: &str) -> (r: Result<String, ErrorKind>)
    ensures
        match file_name_of(path@) {
            Some(n) => r matches Ok(s) && s@ == n,
            None => r == Err::<String, ErrorKind>(ErrorKind::IoError),
        },
{
    let parts = split_components(&chars_of(path));
    let ghost cv = parts@.map_values(|v: Vec<char>| v@);
    let mut k: usize = parts.len();
    assert(cv.subrange(0, cv.len() as int) =~= cv);
    while k > 0
        invariant
            k <= parts@.len(),
            cv == parts@.map_values(|v: Vec<char>| v@),
            cv == components(path@),
            last_name(cv) == last_name(cv.subrange(0, k as int)),
        decreases k,
    {
        let part = &parts[k - 1];
        let dot: Vec<char> = vec!['.'];
        let dots: Vec<char> = vec!['.', '.'];
        assert(dot@ =~= seq!['.']);
        assert(dots@ =~= seq!['.', '.']);
        assert(cv.subrange(0, k as int).last() == part@);
        assert(cv.subrange(0, k as int).drop_last() =~= cv.subrange(0, k - 1));
        if same_chars(part, &dots) {
            return Err(ErrorKind::IoError);
        }
        if !same_chars(part, &dot) {
            return Ok(string_from(part));
        }
        k -= 1;
    }
    Err(ErrorKind::IoError)
}

/// A compressed tar archive, by name.
pub open spec fn is_tar_name(n: Seq<char>) -> bool {
    is_suffix(".tar.gz"@, n) || is_suffix(".tar.bz2"@, n) || is_suffix(".tar.xz"@, n)
        || is_suffix(".tgz"@, n) || is_suffix(".tbz2"@, n)
}

/// A zip archive, by name.
pub open spec fn is_zip_name(n: Seq<char>) -> bool {
    is_suffix(".zip"@, n)
}

/// A single compressed file, by name: compressed, and not a tar archive.
pub open spec fn is_single_file_name(n: Seq<char>) -> bool {
    !is_tar_name(n) && (is_suffix(".gz"@, n) || is_suffix(".bz2"@, n) || is_suffix(".xz"@, n))
}

/// A compression format.
#[derive(Debug, PartialEq, Eq, Clone, Copy, Structural)]
pub enum Compression {
    Gzip,
    Bzip2,
    Xz,
}

/// The compression of a file named `n`, by its extension.
pub open spec fn compression_of(n: Seq<char>) -> Option<Compression> {
    if is_suffix(".gz"@, n) || is_suffix(".tgz"@, n) {
        Some(Compression::Gzip)
    } else if is_suffix(".bz2"@, n) || is_suffix(".tbz2"@, n) {
        Some(Compression::Bzip2)
    } else if is_suffix(".xz"@, n) {
        Some(Compression::Xz)
    } else {
        None
    }
}

/// The compression of the file named `name`.
pub fn compression(name: &str) -> (r: Option<Compression>)
    ensures
        r == compression_of(name@),
{
    let n = chars_of(name);
    if ends_with(&n, &chars_of(".gz")) || ends_with(&n, &chars_of(".tgz")) {
        Some(Compression::Gzip)
    } else if ends_with(&n, &chars_of(".bz2")) || ends_with(&n, &chars_of(".tbz2")) {
        Some(Compression::Bzip2)
    } else if ends_with(&n, &chars_of(".xz")) {
        Some(Compression::Xz)
    } else {
        None
    }
}

/// What the first bytes of a file say it is.
#[derive(Debug, PartialEq, Eq, Clone, Copy, Structural)]
pub enum ExeFormat {
    Elf,
    Mach,
    Pe,
    Other,
}

/// The format that goblin reads from the first sixteen bytes `h` of a file.
pub uninterp spec fn header_format(h: Seq<u8>) -> ExeFormat;

/// The ELF magic number `\x7fELF`.
pub open spec fn has_elf_magic(h: Seq<u8>) -> bool {
    h.len() >= 4 && h[0] == 0x7fu8 && h[1] == 0x45u8 && h[2] == 0x4cu8 && h[3] == 0x46u8
}

/// Relies on `goblin::peek_bytes`: ELF exactly when the bytes start with the ELF magic
/// number, which it tests first.
#[verifier::external_body]
fn peek_format(h: &Vec<u8>) -> (r: ExeFormat)
    requires
        h@.len() >= 16,
    ensures
        r == header_format(h@),
        (r == ExeFormat::Elf) == has_elf_magic(h@),
{
    let mut bytes = [0u8; 16];
    bytes.copy_from_slice(&h[..16]);
    match goblin::peek_bytes(&bytes) {
        Ok(goblin::Hint::Elf(_)) => ExeFormat::Elf,
        Ok(goblin::Hint::Mach(_)) => ExeFormat::Mach,
        Ok(goblin::Hint::MachFat(_)) => ExeFormat::Mach,
        Ok(goblin::Hint::PE) => ExeFormat::Pe,
        _ => ExeFormat::Other,
    }
}

/// The executable format native to a host OS.
pub open spec fn native_format(os: Os) -> Option<ExeFormat> {
    match os {
        Os::Linux => Some(ExeFormat::Elf),
        Os::MacOs => Some(ExeFormat::Mach),
        Os::Windows => Some(ExeFormat::Pe),
        Os::Any => None,
    }
}

/// A file whose first bytes `h` are a native executable of `os`.
pub open spec fn is_native_exe(h: Seq<u8>, os: Os) -> bool {
    h.len() >= 16 && native_format(os) == Some(header_format(h))
}

/// Unpacks compressed tar archives.
#[derive(Debug)]
pub struct TarUnpacker {
    pub archive_path: String,
}

/// Unpacks zip archives.
#[derive(Debug)]
pub struct ZipUnpacker {
    pub archive_path: String,
}

/// "Unpacks" an asset that is itself an executable: copies it.
#[derive(Debug)]
pub struct ExeUnpacker {
    pub archive_path: String,
}

/// Unpacks a single compressed file.
#[derive(Debug)]
pub struct SingleFileUnpacker {
    pub archive_path: String,
}

/// The unpacker chosen for an asset.
#[derive(Debug)]
pub enum Unpacker {
    Tar(TarUnpacker),
    Zip(ZipUnpacker),
    Exe(ExeUnpacker),
    SingleFile(SingleFileUnpacker),
}

impl TarUnpacker {
    pub fn new(archive_path: &str) -> (r: TarUnpacker)
        ensures
            r.archive_path@ == archive_path@,
    {
        TarUnpacker { archive_path: archive_path.to_owned() }
    }

    /// Whether a file named `name` is a compressed tar archive.
    pub fn supports(name: &str) -> (r: bool)
        ensures
            r == is_tar_name(name@),
    {
        let n = chars_of(name);
        ends_with(&n, &chars_of(".tar.gz")) || ends_with(&n, &chars_of(".tar.bz2"))
            || ends_with(&n, &chars_of(".tar.xz")) || ends_with(&n, &chars_of(".tgz"))
            || ends_with(&n, &chars_of(".tbz2"))
    }
}

impl ZipUnpacker {
    pub fn new(archive_path: &str) -> (r: ZipUnpacker)
        ensures
            r.archive_path@ == archive_path@,
    {
        ZipUnpacker { archive_path: archive_path.to_owned() }
    }

    /// Whether a file named `name` is a zip archive.
    pub fn supports(name: &str) -> (r: bool)
        ensures
            r == is_zip_name(name@),
    {
        ends_with(&chars_of(name), &chars_of(".zip"))
    }
}

impl SingleFileUnpacker {
    pub fn new(archive_path: &str) -> (r: SingleFileUnpacker)
        ensures
            r.archive_path@ == archive_path@,
    {
        SingleFileUnpacker { archive_path: archive_path.to_owned() }
    }

    /// Whether a file named `name` is a single compressed file.
    pub fn supports(name: &str) -> (r: bool)
        ensures
            r == is_single_file_name(name@),
    {
        if TarUnpacker::supports(name) {
            return false;
        }
        let n = chars_of(name);
        ends_with(&n, &chars_of(".gz")) || ends_with(&n, &chars_of(".bz2")) || ends_with(&n, &chars_of(".xz"))
    }
}

impl ExeUnpacker {
    pub fn new(archive_path: &str) -> (r: ExeUnpacker)
        ensures
            r.archive_path@ == archive_path@,
    {
        ExeUnpacker { archive_path: archive_path.to_owned() }
    }

    /// Whether a file starting with `header` is an executable native to `host_os`.
    pub fn supports(header: &Vec<u8>, host_os: Os) -> (r: bool)
        ensures
            r == is_native_exe(header@, host_os),
            host_os == Os::Linux ==> (r == (header@.len() >= 16 && has_elf_magic(header@))),
    {
        if header.len() < 16 {
            return false;
        }
        let f = peek_format(header);
        match host_os {
            Os::Linux => f == ExeFormat::Elf,
            Os::MacOs => f == ExeFormat::Mach,
            Os::Windows => f == ExeFormat::Pe,
            Os::Any => false,
        }
    }
}

/// Picks the unpacker for the asset at `archive`, whose first bytes are `header`, on a host
/// running `host_os`: tar by name, then zip by name, then a native executable by its header,
/// then a single compressed file by name. Anything else is `UnsupportedArchive`.
pub fn get_unpacker(archive: &str, header: &Vec<u8>, host_os: Os) -> (r: Result<Unpacker, ErrorKind>)
    ensures
        match file_name_of(archive@) {
            None => r == Err::<Unpacker, ErrorKind>(ErrorKind::UnsupportedArchive),
            Some(n) => if is_tar_name(n) {
                r matches Ok(Unpacker::Tar(u)) && u.archive_path@ == archive@
            } else if is_zip_name(n) {
                r matches Ok(Unpacker::Zip(u)) && u.archive_path@ == archive@
            } else if is_native_exe(header@, host_os) {
                r matches Ok(Unpacker::Exe(u)) && u.archive_path@ == archive@
            } else if is_single_file_name(n) {
                r matches Ok(Unpacker::SingleFile(u)) && u.archive_path@ == archive@
            } else {
                r == Err::<Unpacker, ErrorKind>(ErrorKind::UnsupportedArchive)
            },
        },
{
    let name = match get_file_name(archive) {
        Ok(n) => n,
        Err(_) => {
            return Err(ErrorKind::UnsupportedArchive);
        },
    };
    if TarUnpacker::supports(name.as_str()) {
        return Ok(Unpacker::Tar(TarUnpacker::new(archive)));
    }
    if ZipUnpacker::supports(name.as_str()) {
        return Ok(Unpacker::Zip(ZipUnpacker::new(archive)));
    }
    if ExeUnpacker::supports(header, host_os) {
        return Ok(Unpacker::Exe(ExeUnpacker::new(archive)));
    }
    if SingleFileUnpacker::supports(name.as_str()) {
        return Ok(Unpacker::SingleFile(SingleFileUnpacker::new(archive)));
    }
    Err(ErrorKind::UnsupportedArchive)
}

} // verus!
